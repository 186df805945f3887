//! Registration requests and namespace ids.

use trail_stash::api::{
    looks_like_ticket, parse_namespace_hex, parse_platform, validate_register, ApiError,
    RegisterRequest, MAX_TICKET_LEN, MAX_TOKEN_LEN, MIN_TICKET_LEN,
};
use trail_stash::subscriptions::{Platform, PushSubscription};

fn req(ticket: &str, token: Option<&str>, platform: Option<&str>) -> RegisterRequest {
    RegisterRequest {
        read_ticket: ticket.to_string(),
        push_token: token.map(String::from),
        platform: platform.map(String::from),
    }
}

const OK_TICKET: &str = "docaaaabbbbccccdddd1234"; // alnum, > MIN_TICKET_LEN

#[test]
fn ticket_only_registration_is_valid() {
    let v = validate_register(&req(OK_TICKET, None, None)).unwrap();
    assert_eq!(v.read_ticket, OK_TICKET);
    assert!(v.subscription.is_none());
}

#[test]
fn ticket_with_push_is_valid() {
    let v = validate_register(&req(OK_TICKET, Some("tok123"), Some("fcm"))).unwrap();
    assert_eq!(
        v.subscription,
        Some(PushSubscription {
            platform: Platform::Fcm,
            token: "tok123".to_string(),
        })
    );
}

#[test]
fn trims_ticket_and_token() {
    let v = validate_register(&req("  docaaaabbbbccccdddd  ", Some(" tok "), Some("apns")))
        .unwrap();
    assert_eq!(v.read_ticket, "docaaaabbbbccccdddd");
    assert_eq!(v.subscription.unwrap().token, "tok");
}

#[test]
fn rejects_junk_ticket() {
    assert_eq!(
        validate_register(&req("short", None, None)),
        Err(ApiError::BadTicket)
    );
    assert_eq!(
        validate_register(&req("has spaces and!!!", None, None)),
        Err(ApiError::BadTicket)
    );
    assert_eq!(
        validate_register(&req("", None, None)),
        Err(ApiError::BadTicket)
    );
}

#[test]
fn rejects_partial_push() {
    assert_eq!(
        validate_register(&req(OK_TICKET, Some("tok"), None)),
        Err(ApiError::IncompletePush)
    );
    assert_eq!(
        validate_register(&req(OK_TICKET, None, Some("apns"))),
        Err(ApiError::IncompletePush)
    );
}

#[test]
fn rejects_bad_platform_and_empty_token() {
    assert_eq!(
        validate_register(&req(OK_TICKET, Some("tok"), Some("sms"))),
        Err(ApiError::BadPlatform)
    );
    assert_eq!(
        validate_register(&req(OK_TICKET, Some("   "), Some("apns"))),
        Err(ApiError::BadToken)
    );
}

#[test]
fn rejects_oversized_token() {
    let big = "a".repeat(MAX_TOKEN_LEN + 1);
    assert_eq!(
        validate_register(&req(OK_TICKET, Some(&big), Some("apns"))),
        Err(ApiError::BadToken)
    );
}

#[test]
fn namespace_hex_round_trips() {
    let ns = [0xabu8; 32];
    let hex: String = ns.iter().map(|b| format!("{b:02x}")).collect();
    assert_eq!(parse_namespace_hex(&hex).unwrap(), ns);
}

#[test]
fn namespace_hex_rejects_bad_input() {
    assert_eq!(
        parse_namespace_hex("abc").unwrap_err(),
        ApiError::BadNamespace
    );
    let upper = "A".repeat(64);
    assert_eq!(
        parse_namespace_hex(&upper).unwrap_err(),
        ApiError::BadNamespace
    );
    let non_hex = "g".repeat(64);
    assert_eq!(
        parse_namespace_hex(&non_hex).unwrap_err(),
        ApiError::BadNamespace
    );
}

#[test]
fn tickets_are_bounded_and_alphanumeric() {
    assert!(!looks_like_ticket(&"a".repeat(MIN_TICKET_LEN - 1)));
    assert!(looks_like_ticket(&"a".repeat(MIN_TICKET_LEN)));
    assert!(looks_like_ticket(&"Z9".repeat(MAX_TICKET_LEN / 2)));
    assert!(!looks_like_ticket(&"a".repeat(MAX_TICKET_LEN + 1)));
    assert!(!looks_like_ticket(&"ä".repeat(MIN_TICKET_LEN)));
}

#[test]
fn tokens_are_bounded_in_bytes() {
    let fits = "a".repeat(MAX_TOKEN_LEN);
    assert!(validate_register(&req(OK_TICKET, Some(&fits), Some("apns"))).is_ok());
    let wide = "ä".repeat(MAX_TOKEN_LEN / 2 + 1);
    assert_eq!(
        validate_register(&req(OK_TICKET, Some(&wide), Some("apns"))),
        Err(ApiError::BadToken)
    );
}

#[test]
fn the_ticket_is_looked_at_first() {
    assert_eq!(
        validate_register(&req("junk", Some(" "), None)),
        Err(ApiError::BadTicket)
    );
    assert_eq!(
        validate_register(&req(OK_TICKET, Some(" "), Some("sms"))),
        Err(ApiError::BadToken)
    );
}

#[test]
fn platform_names_are_exact() {
    assert_eq!(parse_platform("apns"), Some(Platform::Apns));
    assert_eq!(parse_platform("fcm"), Some(Platform::Fcm));
    assert_eq!(parse_platform("APNS"), None);
    assert_eq!(parse_platform(" fcm"), None);
    assert_eq!(parse_platform(""), None);
}
