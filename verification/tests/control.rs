//! The control API's answers.

use serde_json::Value;
use trail_stash::api::{ApiError, RegisterRequest};
use trail_stash::control::{
    check_register, healthz, psk_guard, register_reply, unsubscribe_reply, RegisterFailure,
};
use trail_stash::mls::Admission;
use trail_stash::node::{Arrival, StashNode, WakePlan};
use trail_stash::push::namespace_hex;
use trail_stash::retention::RetentionPolicy;
use trail_stash::subscriptions::{Platform, PushSubscription};

const NS: [u8; 32] = [7; 32];

fn node() -> StashNode {
    StashNode::new(RetentionPolicy::from_hours(48))
}

fn sub(token: &str) -> PushSubscription {
    PushSubscription {
        platform: Platform::Fcm,
        token: token.to_string(),
    }
}

#[test]
fn the_guard_asks_for_the_key_only_when_there_is_one() {
    assert!(psk_guard(None, None).is_none());
    assert!(psk_guard(None, Some("Bearer x")).is_none());
    assert!(psk_guard(Some("s3cret"), Some("Bearer s3cret")).is_none());
    for header in [None, Some("Bearer nope"), Some("s3cret"), Some("Basic s3cret")] {
        let reply = psk_guard(Some("s3cret"), header).unwrap();
        assert_eq!(reply.status, 401);
        assert_eq!(reply.text, "missing or invalid pre-shared key");
    }
}

#[test]
fn a_bad_registration_is_the_clients_fault() {
    let request = |ticket: &str, token: Option<&str>, platform: Option<&str>| RegisterRequest {
        read_ticket: ticket.to_string(),
        push_token: token.map(String::from),
        platform: platform.map(String::from),
    };
    let ticket = "docaaaabbbbccccdddd1234";
    let cases = [
        (request("junk", None, None), ApiError::BadTicket),
        (request(ticket, Some(" "), Some("fcm")), ApiError::BadToken),
        (request(ticket, Some("t"), Some("sms")), ApiError::BadPlatform),
        (request(ticket, Some("t"), None), ApiError::IncompletePush),
    ];
    for (request, error) in cases {
        let reply = check_register(&request).unwrap_err();
        assert_eq!(reply.status, 400);
        assert_eq!(reply.text, error.message());
    }
    let valid = check_register(&request(ticket, Some("t"), Some("fcm"))).unwrap();
    assert_eq!(valid.read_ticket, ticket);
    assert_eq!(valid.subscription, Some(sub("t")));
}

#[test]
fn error_texts_are_stable() {
    assert_eq!(ApiError::BadTicket.message(), "read ticket missing or malformed");
    assert_eq!(ApiError::BadToken.message(), "push token missing or too long");
    assert_eq!(ApiError::BadPlatform.message(), "platform must be 'apns' or 'fcm'");
    assert_eq!(
        ApiError::IncompletePush.message(),
        "push token and platform must be provided together"
    );
    assert_eq!(
        ApiError::BadNamespace.message(),
        "namespace id must be 64 lowercase hex characters"
    );
}

#[test]
fn a_registration_is_answered_by_its_outcome() {
    let created = register_reply(&Ok(()));
    assert_eq!((created.status, created.text.as_str()), (201, ""));
    let ticket = register_reply(&Err(RegisterFailure::Ticket("wrong kind".to_string())));
    assert_eq!(ticket.status, 400);
    assert_eq!(ticket.text, "parse doc ticket: wrong kind");
    let import = register_reply(&Err(RegisterFailure::Import("closed".to_string())));
    assert_eq!(import.status, 502);
    assert_eq!(import.text, "import namespace capability: closed");
    let join = register_reply(&Err(RegisterFailure::Join("closed".to_string())));
    assert_eq!(join.status, 502);
    assert_eq!(join.text, "join namespace without bootstrap peers: closed");
}

#[test]
fn unsubscribing_does_not_tell_what_was_there() {
    let mut node = node();
    node.register(NS, Some(sub("tok")));
    let id = namespace_hex(&NS);
    for _ in 0..2 {
        let reply = unsubscribe_reply(&mut node, &id, "fcm", "tok".to_string());
        assert_eq!((reply.status, reply.text.as_str()), (204, ""));
    }
    let reply = unsubscribe_reply(&mut node, &namespace_hex(&[8; 32]), "apns", "x".to_string());
    assert_eq!(reply.status, 204);
    assert!(!node.unsubscribe(&NS, &sub("tok")));
    assert!(node.is_known(&NS));
}

#[test]
fn a_bad_unsubscription_changes_nothing() {
    let mut node = node();
    node.register(NS, Some(sub("tok")));
    let id = namespace_hex(&NS);
    let reply = unsubscribe_reply(&mut node, "nonsense", "sms", "tok".to_string());
    assert_eq!(reply.status, 400);
    assert_eq!(reply.text, ApiError::BadNamespace.message());
    let reply = unsubscribe_reply(&mut node, &id, "sms", "tok".to_string());
    assert_eq!(reply.status, 400);
    assert_eq!(reply.text, "platform must be 'apns' or 'fcm'");
    assert!(node.unsubscribe(&NS, &sub("tok")));
}

#[test]
fn health_reports_what_cannot_be_served_yet() {
    let mut node = node();
    node.register(NS, None);
    let first = Arrival::new(NS, [1; 32], b"", [0; 32]);
    let second = Arrival::new(NS, [2; 32], b"", [0; 32]);
    node.arrived(&first, 10);
    node.arrived(&second, 10);
    node.arrival_checked(&second, true);
    let body = healthz(&node);
    assert_eq!(body["status"], Value::from("ok"));
    assert_eq!(body["content_missing"], Value::from(1));
    assert_eq!(body["content_tracked"], Value::from(2));
    assert_eq!(body.as_object().map(|o| o.len()), Some(3));
}

#[test]
fn unsubscribing_with_the_fields_of_the_registration_stops_the_wake() {
    let mut node = node();
    let request = RegisterRequest {
        read_ticket: "docaaaabbbbccccdddd1234".to_string(),
        push_token: Some(" tok ".to_string()),
        platform: Some("fcm".to_string()),
    };
    let valid = check_register(&request).unwrap();
    node.register(NS, valid.subscription);
    assert!(matches!(
        node.plan_wake(&NS, Admission::Accept),
        WakePlan::Push(targets) if targets == vec![sub("tok")]
    ));
    let reply = unsubscribe_reply(&mut node, &namespace_hex(&NS), "fcm", " tok ".to_string());
    assert_eq!(reply.status, 204);
    assert!(matches!(
        node.plan_wake(&NS, Admission::Accept),
        WakePlan::Nobody
    ));
    assert!(node.is_known(&NS));
}
