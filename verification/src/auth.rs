//! Token interceptor: parse and validate a signed bearer claim and attach
//! the resulting identity to the request.
//!
//! Identity and signed-request checking are orthogonal: the token
//! authenticates a user, the signed challenge a device key. The cryptographic
//! verification of the token is the crypto collaborator's work; the
//! interceptor decision here is a function of what that verification
//! reported, the configured policy, and the clock.

use crate::error::Status;
use vstd::prelude::*;
use vstd::string::StringExecFns;

verus! {

/// A decoded bearer identity: the numeric user id, the username, and the
/// expiry timestamp in seconds since the epoch.
#[derive(Debug)]
pub struct JwtClaims {
    pub userid: usize,
    pub username: String,
    pub exp: usize,
}

/// The mathematical value of a `JwtClaims`.
#[verifier::ext_equal]
pub ghost struct JwtClaimsView {
    pub userid: int,
    pub username: Seq<char>,
    pub exp: int,
}

impl View for JwtClaims {
    type V = JwtClaimsView;

    open spec fn view(&self) -> JwtClaimsView {
        JwtClaimsView {
            userid: self.userid as int,
            username: self.username@,
            exp: self.exp as int,
        }
    }
}

impl JwtClaims {
    /// An owned copy of this claim, equal in value.
    pub fn duplicate(&self) -> (r: Self)
        ensures
            r@ == self@,
    {
        JwtClaims { userid: self.userid, username: self.username.clone(), exp: self.exp }
    }
}

/// The identity attached to a request: the decoded claim, or nothing when no
/// valid token accompanied the request.
#[derive(Debug)]
pub struct AuthExtension {
    pub claims: Option<JwtClaims>,
}

impl AuthExtension {
    /// An empty identity: no claim attached.
    pub fn empty() -> (r: Self)
        ensures
            r.claims is None,
    {
        AuthExtension { claims: None }
    }

    /// Whether an identity is attached.
    pub fn is_logged(&self) -> (r: bool)
        ensures
            r == (self.claims is Some),
    {
        match &self.claims {
            Some(_) => true,
            None => false,
        }
    }

    /// The attached claim, or `Unauthenticated` when none is.
    pub fn require_logged(&self) -> (r: Result<&JwtClaims, Status>)
        ensures
            match r {
                Ok(c) => self.claims matches Some(a) && c@ == a@,
                Err(e) => self.claims is None && (e matches Status::Unauthenticated(m) && m@
                    == "You are not authenticated"@),
            },
    {
        match &self.claims {
            Some(c) => Ok(c),
            None => Err(
                Status::Unauthenticated(String::from_str("You are not authenticated")),
            ),
        }
    }

    /// The user id of the attached claim, if one is.
    pub fn userid(&self) -> (r: Option<usize>)
        ensures
            match self.claims {
                Some(c) => r == Some(c.userid),
                None => r is None,
            },
    {
        match &self.claims {
            Some(c) => Some(c.userid),
            None => None,
        }
    }

    /// The username of the attached claim, if one is.
    pub fn username(&self) -> (r: Option<String>)
        ensures
            match self.claims {
                Some(c) => r matches Some(u) && u@ == c.username@,
                None => r is None,
            },
    {
        match &self.claims {
            Some(c) => Some(c.username.clone()),
            None => None,
        }
    }
}

impl Default for AuthExtension {
    /// The default identity is empty.
    fn default() -> (r: Self)
        ensures
            r.claims is None,
    {
        AuthExtension { claims: None }
    }
}

/// How the `accesstoken` metadata header arrived, as the transport reports
/// it: absent, present but not decodable as text, or readable.
#[derive(Debug)]
pub enum TokenHeader {
    Absent,
    Unreadable,
    Readable,
}

/// A claim is valid at `now` only while the current time lies strictly
/// before its expiry.
pub open spec fn claim_fresh(c: JwtClaimsView, now: int) -> bool {
    now < c.exp
}

/// The interceptor decision, given the whole process configuration and what
/// the crypto collaborator reported of the request's token.
///
/// `policy_enabled` says whether a decoding key was configured at startup
/// (fixed for the process lifetime). `header` says how the `accesstoken`
/// header arrived. `decoded` is the claim the signature verification
/// recovered, or nothing when verification failed; it is only consulted for
/// a readable header. `now` is the current time in seconds since the epoch.
///
/// With the policy disabled, or without a header, the request passes with an
/// empty identity. An unreadable header, a failed verification, and an
/// expired claim are each rejected as an invalid argument; otherwise the
/// decoded claim is attached.
pub fn auth_interceptor(
    policy_enabled: bool,
    header: TokenHeader,
    decoded: Option<JwtClaims>,
    now: usize,
) -> (r: Result<AuthExtension, Status>)
    ensures
        !policy_enabled ==> (r matches Ok(ext) && ext.claims is None),
        policy_enabled && header is Absent ==> (r matches Ok(ext) && ext.claims is None),
        policy_enabled && header is Unreadable ==> (r matches Err(e) && (e matches
        Status::InvalidArgument(m) && m@ == "Invalid AccessToken header"@)),
        policy_enabled && header is Readable ==> (match decoded {
            None => r matches Err(e) && (e matches Status::InvalidArgument(m) && m@
                == "Failed to decode AccessToken"@),
            Some(c) => {
                &&& !claim_fresh(c@, now as int) ==> (r matches Err(e) && (e matches
                Status::InvalidArgument(m) && m@ == "Failed to decode AccessToken"@))
                &&& claim_fresh(c@, now as int) ==> (r matches Ok(ext) && (ext.claims matches
                Some(a) && a@ == c@))
            },
        }),
{
    if !policy_enabled {
        return Ok(AuthExtension::empty());
    }
    match header {
        TokenHeader::Absent => Ok(AuthExtension::empty()),
        TokenHeader::Unreadable => Err(
            Status::InvalidArgument(String::from_str("Invalid AccessToken header")),
        ),
        TokenHeader::Readable => {
            match decoded {
                None => Err(
                    Status::InvalidArgument(String::from_str("Failed to decode AccessToken")),
                ),
                Some(c) => {
                    if now < c.exp {
                        Ok(AuthExtension { claims: Some(c) })
                    } else {
                        Err(
                            Status::InvalidArgument(
                                String::from_str("Failed to decode AccessToken"),
                            ),
                        )
                    }
                },
            }
        },
    }
}

} // verus!
