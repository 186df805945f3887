//! The pre-shared key guard.

use trail_stash::auth::{authorize, bearer_token, ct_eq, AuthOutcome};

#[test]
fn disabled_when_no_psk_configured() {
    assert_eq!(authorize(None, None), AuthOutcome::Disabled);
    assert_eq!(authorize(None, Some("whatever")), AuthOutcome::Disabled);
    assert!(authorize(None, None).is_allowed());
}

#[test]
fn ok_only_on_exact_match() {
    assert_eq!(authorize(Some("s3cret"), Some("s3cret")), AuthOutcome::Matched);
    assert!(authorize(Some("s3cret"), Some("s3cret")).is_allowed());
}

#[test]
fn denied_on_missing_or_wrong() {
    assert_eq!(authorize(Some("s3cret"), None), AuthOutcome::Denied);
    assert_eq!(authorize(Some("s3cret"), Some("nope")), AuthOutcome::Denied);
    assert_eq!(authorize(Some("s3cret"), Some("s3cre")), AuthOutcome::Denied);
    assert!(!authorize(Some("s3cret"), Some("nope")).is_allowed());
}

#[test]
fn parses_bearer_header() {
    assert_eq!(bearer_token(Some("Bearer abc123")), Some("abc123"));
    assert_eq!(bearer_token(Some("bearer abc123")), Some("abc123")); // case-insensitive
    assert_eq!(bearer_token(Some("  Bearer   abc123  ")), Some("abc123"));
    assert_eq!(bearer_token(Some("Basic abc123")), None);
    assert_eq!(bearer_token(Some("abc123")), None);
    assert_eq!(bearer_token(Some("Bearer ")), None);
    assert_eq!(bearer_token(None), None);
}

#[test]
fn ct_eq_matches_only_identical() {
    assert!(ct_eq(b"", b""));
    assert!(ct_eq(b"abc", b"abc"));
    assert!(!ct_eq(b"abc", b"abd"));
    assert!(!ct_eq(b"abc", b"ab"));
}

#[test]
fn the_configured_key_passes() {
    let key = "s3 cret";
    for scheme in ["Bearer", "bearer", "BEARER"] {
        let header = format!("{scheme} {key}");
        assert_eq!(bearer_token(Some(&header)), Some(key));
        assert_eq!(
            authorize(Some(key), bearer_token(Some(&header))),
            AuthOutcome::Matched
        );
    }
    assert_eq!(bearer_token(Some("Bearer\tabc")), None);
    assert_eq!(bearer_token(Some("Bearer   ")), None);
}
