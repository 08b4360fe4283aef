use bastionlab::auth::{auth_interceptor, AuthExtension, JwtClaims, TokenHeader};
use bastionlab::challenge::ChallengeSet;
use bastionlab::error::Status;

fn claims(exp: usize) -> JwtClaims {
    JwtClaims { userid: 7, username: "ada".to_string(), exp }
}

#[test]
fn disabled_policy_attaches_empty_identity() {
    let ext = auth_interceptor(false, TokenHeader::Readable, Some(claims(0)), 1000)
        .expect("pass-through when no decoding key is configured");
    assert!(!ext.is_logged());
    assert!(ext.userid().is_none());
    assert!(ext.username().is_none());
}

#[test]
fn absent_header_attaches_empty_identity() {
    let ext = auth_interceptor(true, TokenHeader::Absent, None, 1000)
        .expect("requests without a token pass with an empty identity");
    assert!(!ext.is_logged());
}

#[test]
fn unreadable_header_is_invalid_argument() {
    match auth_interceptor(true, TokenHeader::Unreadable, None, 1000).unwrap_err() {
        Status::InvalidArgument(m) => assert_eq!(m, "Invalid AccessToken header"),
        other => panic!("expected InvalidArgument, got {:?}", other),
    }
}

#[test]
fn failed_decode_is_invalid_argument() {
    match auth_interceptor(true, TokenHeader::Readable, None, 1000).unwrap_err() {
        Status::InvalidArgument(m) => assert_eq!(m, "Failed to decode AccessToken"),
        other => panic!("expected InvalidArgument, got {:?}", other),
    }
}

#[test]
fn expired_token_is_invalid_argument() {
    match auth_interceptor(true, TokenHeader::Readable, Some(claims(100)), 200).unwrap_err() {
        Status::InvalidArgument(m) => assert_eq!(m, "Failed to decode AccessToken"),
        other => panic!("expected InvalidArgument, got {:?}", other),
    }
}

#[test]
fn token_expiring_now_is_already_invalid() {
    assert!(auth_interceptor(true, TokenHeader::Readable, Some(claims(200)), 200).is_err());
}

#[test]
fn fresh_token_attaches_claims() {
    let ext = auth_interceptor(true, TokenHeader::Readable, Some(claims(2000)), 1000)
        .expect("a fresh, verified token is accepted");
    assert!(ext.is_logged());
    assert_eq!(ext.userid(), Some(7));
    assert_eq!(ext.username(), Some("ada".to_string()));
    let c = ext.require_logged().expect("identity attached");
    assert_eq!(c.exp, 2000);
}

#[test]
fn require_logged_without_identity_is_unauthenticated() {
    let ext = AuthExtension::empty();
    match ext.require_logged().unwrap_err() {
        Status::Unauthenticated(m) => assert_eq!(m, "You are not authenticated"),
        other => panic!("expected Unauthenticated, got {:?}", other),
    }
}

#[test]
fn challenges_are_single_use() {
    let mut set = ChallengeSet::new();
    let c = set.new_challenge().expect("challenge minted");
    assert_eq!(c.len(), 32);
    set.consume(&c).expect("first consumption succeeds");
    match set.consume(&c).unwrap_err() {
        Status::PermissionDenied(m) => assert_eq!(m, "Invalid or reused challenge"),
        other => panic!("expected PermissionDenied, got {:?}", other),
    }
}

#[test]
fn never_minted_challenge_is_denied() {
    let mut set = ChallengeSet::new();
    let fake = vec![0u8; 32];
    assert!(set.consume(&fake).is_err());
}

#[test]
fn distinct_challenges_do_not_interfere() {
    let mut set = ChallengeSet::new();
    let a = set.new_challenge().unwrap();
    let b = set.new_challenge().unwrap();
    assert_ne!(a, b);
    set.consume(&a).expect("first challenge still valid");
    set.consume(&b).expect("second challenge still valid");
}
