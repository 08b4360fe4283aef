//! Key/identity manager: a ring of named public keys, and the per-request
//! check of binary metadata headers of the form `signing-key-<KEY-ID>-bin`.
//!
//! Loading PEM files from the key directory is the caller's concern; the ring
//! works on the (key-id, key-bytes) pairs handed to it. Each signing header
//! of a request must name a known key, and its value must be a valid ECDSA
//! signature by that key over the canonical request digest — the digest
//! itself (method path, consumed challenge, body digest) is the transport's
//! to assemble and is handed in as plain bytes.

use crate::error::Status;
use vstd::prelude::*;
use vstd::string::{StrSliceExecFns, StringExecFns};

verus! {

/// Whether a binary metadata header name claims a signature:
/// `signing-key-<KEY-ID>-bin`.
pub open spec fn is_signing_header(name: Seq<char>) -> bool {
    name.len() >= 16 && name.subrange(0, 12) == "signing-key-"@ && name.subrange(
        name.len() - 4,
        name.len() as int,
    ) == "-bin"@
}

/// The key-id a signing header names.
pub open spec fn header_key_id(name: Seq<char>) -> Seq<char> {
    name.subrange(12, name.len() - 4)
}

/// How many of the headers claim a signature.
pub open spec fn count_signing(headers: Seq<(String, Vec<u8>)>) -> int
    decreases headers.len(),
{
    if headers.len() == 0 {
        0int
    } else {
        count_signing(headers.drop_last()) + if is_signing_header(headers.last().0@) {
            1int
        } else {
            0int
        }
    }
}

/// The public key stored under the first entry holding `id`, if any.
pub open spec fn key_lookup(ring: Seq<(Seq<char>, Seq<u8>)>, id: Seq<char>) -> Option<Seq<u8>>
    decreases ring.len(),
{
    if ring.len() == 0 {
        None
    } else if ring[0].0 == id {
        Some(ring[0].1)
    } else {
        key_lookup(ring.drop_first(), id)
    }
}

/// Whether `sig` is a valid ECDSA P-256 (SHA-256, ASN.1) signature by the
/// public key `key` over `message`. Verification is a function of the three
/// values alone; what it comes to is the crypto collaborator's.
pub uninterp spec fn ecdsa_p256_valid(key: Seq<u8>, message: Seq<u8>, sig: Seq<u8>) -> bool;

/// Relies on `ring::signature::UnparsedPublicKey::verify` with
/// `ECDSA_P256_SHA256_ASN1`: whether the signature verifies; deterministic in
/// the key, message and signature bytes.
#[verifier::external_body]
fn ecdsa_verify(key: &Vec<u8>, message: &Vec<u8>, sig: &Vec<u8>) -> (r: bool)
    ensures
        r == ecdsa_p256_valid(key@, message@, sig@),
{
    let public_key = ring::signature::UnparsedPublicKey::new(
        &ring::signature::ECDSA_P256_SHA256_ASN1,
        key.as_slice(),
    );
    public_key.verify(message.as_slice(), sig.as_slice()).is_ok()
}

/// Whether two string slices hold the same characters.
fn str_eq(a: &str, b: &str) -> (r: bool)
    ensures
        r == (a@ == b@),
{
    let n = a.unicode_len();
    if b.unicode_len() != n {
        return false;
    }
    let mut i: usize = 0;
    while i < n
        invariant
            i <= n,
            n == a@.len(),
            a@.len() == b@.len(),
            forall|j: int| 0 <= j < i ==> a@[j] == b@[j],
        decreases n - i,
    {
        if a.get_char(i) != b.get_char(i) {
            return false;
        }
        i = i + 1;
    }
    assert(a@ =~= b@);
    true
}

/// Whether `s` has `p` as a prefix.
fn has_prefix(s: &str, p: &str) -> (r: bool)
    ensures
        r == (s@.len() >= p@.len() && s@.subrange(0, p@.len() as int) == p@),
{
    let n = p.unicode_len();
    if s.unicode_len() < n {
        return false;
    }
    let mut i: usize = 0;
    while i < n
        invariant
            i <= n,
            n == p@.len(),
            s@.len() >= n,
            forall|j: int| 0 <= j < i ==> s@[j] == p@[j],
        decreases n - i,
    {
        if s.get_char(i) != p.get_char(i) {
            assert(s@.subrange(0, p@.len() as int)[i as int] != p@[i as int]);
            return false;
        }
        i = i + 1;
    }
    assert(s@.subrange(0, p@.len() as int) =~= p@);
    true
}

/// Whether `s` has `p` as a suffix.
fn has_suffix(s: &str, p: &str) -> (r: bool)
    ensures
        r == (s@.len() >= p@.len() && s@.subrange(s@.len() - p@.len(), s@.len() as int) == p@),
{
    let n = p.unicode_len();
    let m = s.unicode_len();
    if m < n {
        return false;
    }
    let start = m - n;
    let mut i: usize = 0;
    while i < n
        invariant
            i <= n,
            n == p@.len(),
            m == s@.len(),
            m >= n,
            start == m - n,
            forall|j: int| 0 <= j < i ==> s@[start + j] == p@[j],
        decreases n - i,
    {
        if s.get_char(start + i) != p.get_char(i) {
            assert(s@.subrange(s@.len() - p@.len(), s@.len() as int)[i as int] != p@[i as int]);
            return false;
        }
        i = i + 1;
    }
    assert(s@.subrange(s@.len() - p@.len(), s@.len() as int) =~= p@);
    true
}

/// The ring of named public verification keys, loaded once at startup.
pub struct KeyManagement {
    keys: Vec<(String, Vec<u8>)>,
}

/// A signing header resolves and its value verifies: the named key is in the
/// ring and the value is a valid signature over the digest.
pub open spec fn header_ok(
    ring: Seq<(Seq<char>, Seq<u8>)>,
    header: (String, Vec<u8>),
    digest: Seq<u8>,
) -> bool {
    key_lookup(ring, header_key_id(header.0@)) matches Some(kb) && ecdsa_p256_valid(
        kb,
        digest,
        header.1@,
    )
}

impl KeyManagement {
    /// The (key-id, public-key) pairs the ring holds, in order.
    pub closed spec fn ring_of(&self) -> Seq<(Seq<char>, Seq<u8>)> {
        self.keys@.map_values(|p: (String, Vec<u8>)| (p.0@, p.1@))
    }

    /// A ring over the given (key-id, public-key-bytes) pairs.
    pub fn new(keys: Vec<(String, Vec<u8>)>) -> (r: Self)
        ensures
            r.ring_of() == keys@.map_values(|p: (String, Vec<u8>)| (p.0@, p.1@)),
    {
        KeyManagement { keys }
    }

    /// Resolve a key-id and verify a signature over the digest against the
    /// key it names: an unknown id and a signature that does not verify are
    /// each denied.
    pub fn verify_key(&self, key_id: &str, digest: &Vec<u8>, sig: &Vec<u8>) -> (r: Result<
        (),
        Status,
    >)
        ensures
            match r {
                Ok(()) => key_lookup(self.ring_of(), key_id@) matches Some(kb)
                    && ecdsa_p256_valid(kb, digest@, sig@),
                Err(e) => e matches Status::PermissionDenied(m) && match key_lookup(
                    self.ring_of(),
                    key_id@,
                ) {
                    None => m@ == "Unknown signing key: "@ + key_id@,
                    Some(kb) => !ecdsa_p256_valid(kb, digest@, sig@) && m@
                        == "Invalid signature for key: "@ + key_id@,
                },
            },
    {
        let ghost ring = self.ring_of();
        let mut i: usize = 0;
        assert(ring.skip(0) =~= ring);
        while i < self.keys.len()
            invariant
                i <= self.keys@.len(),
                ring == self.ring_of(),
                key_lookup(ring, key_id@) == key_lookup(ring.skip(i as int), key_id@),
            decreases self.keys.len() - i,
        {
            proof {
                assert(ring.skip(i as int)[0] == ring[i as int]);
                assert(ring[i as int].0 == self.keys@[i as int].0@);
            }
            if str_eq(self.keys[i].0.as_str(), key_id) {
                assert(key_lookup(ring, key_id@) == Some(self.keys@[i as int].1@));
                if ecdsa_verify(&self.keys[i].1, digest, sig) {
                    return Ok(());
                }
                let msg = String::from_str("Invalid signature for key: ").concat(key_id);
                return Err(Status::PermissionDenied(msg));
            }
            proof {
                assert(ring.skip(i as int).drop_first() =~= ring.skip(i as int + 1));
            }
            i = i + 1;
        }
        assert(ring.skip(self.keys@.len() as int) =~= Seq::<(Seq<char>, Seq<u8>)>::empty());
        let msg = String::from_str("Unknown signing key: ").concat(key_id);
        Err(Status::PermissionDenied(msg))
    }

    /// Check the binary metadata headers of a request: every header of the
    /// form `signing-key-<KEY-ID>-bin` must name a known key and carry a
    /// valid signature over `digest`. Returns how many signing headers the
    /// request carried; an unknown key and a bad signature are each denied.
    pub fn verify_request(&self, headers: &Vec<(String, Vec<u8>)>, digest: &Vec<u8>) -> (r:
        Result<usize, Status>)
        ensures
            match r {
                Ok(n) => n == count_signing(headers@) && forall|k: int|
                    0 <= k < headers@.len() && is_signing_header(#[trigger] headers@[k].0@)
                        ==> header_ok(self.ring_of(), headers@[k], digest@),
                Err(e) => e matches Status::PermissionDenied(m) && exists|k: int|
                    0 <= k < headers@.len() && is_signing_header(#[trigger] headers@[k].0@)
                        && match key_lookup(self.ring_of(), header_key_id(headers@[k].0@)) {
                        None => m@ == "Unknown signing key: "@ + header_key_id(headers@[k].0@),
                        Some(kb) => !ecdsa_p256_valid(kb, digest@, headers@[k].1@) && m@
                            == "Invalid signature for key: "@ + header_key_id(headers@[k].0@),
                    },
            },
    {
        proof {
            reveal_strlit("signing-key-");
            reveal_strlit("-bin");
        }
        let prefix = String::from_str("signing-key-");
        let suffix = String::from_str("-bin");
        let mut count: usize = 0;
        let mut k: usize = 0;
        assert(count_signing(headers@.subrange(0, 0)) == 0) by {
            assert(headers@.subrange(0, 0) =~= Seq::<(String, Vec<u8>)>::empty());
        }
        while k < headers.len()
            invariant
                k <= headers@.len(),
                prefix@ == "signing-key-"@,
                suffix@ == "-bin"@,
                count == count_signing(headers@.subrange(0, k as int)),
                count <= k,
                forall|j: int|
                    0 <= j < k && is_signing_header(#[trigger] headers@[j].0@) ==> header_ok(
                        self.ring_of(),
                        headers@[j],
                        digest@,
                    ),
            decreases headers.len() - k,
        {
            proof {
                reveal_strlit("signing-key-");
                reveal_strlit("-bin");
            }
            let name = &headers[k].0;
            let is_signing = has_prefix(name.as_str(), prefix.as_str()) && has_suffix(
                name.as_str(),
                suffix.as_str(),
            ) && name.unicode_len() >= 16;
            assert(is_signing == is_signing_header(name@));
            if is_signing {
                let len = name.unicode_len();
                let key_id = name.as_str().substring_char(12, len - 4);
                assert(key_id@ == header_key_id(name@));
                match self.verify_key(key_id, digest, &headers[k].1) {
                    Ok(()) => {},
                    Err(e) => {
                        return Err(e);
                    },
                }
                count = count + 1;
            }
            proof {
                assert(headers@.subrange(0, k as int + 1).drop_last() =~= headers@.subrange(
                    0,
                    k as int,
                ));
                assert(headers@.subrange(0, k as int + 1).last() == headers@[k as int]);
            }
            k = k + 1;
        }
        assert(headers@.subrange(0, headers@.len() as int) =~= headers@);
        Ok(count)
    }
}

} // verus!
