//! Silent push requests.

use serde_json::Value;
use trail_stash::push::{
    apns_request, embed_traceparent, fcm_request, namespace_hex, PushRequest, PUSH_TYPE,
};
use trail_stash::subscriptions::{NamespaceId, Platform};

const NS: NamespaceId = [0xabu8; 32];

fn header<'a>(r: &'a PushRequest, key: &str) -> Option<&'a str> {
    r.headers
        .iter()
        .find(|(k, _)| k == key)
        .map(|(_, v)| v.as_str())
}

#[test]
fn namespace_hex_is_64_lowercase() {
    let h = namespace_hex(&NS);
    assert_eq!(h.len(), 64);
    assert_eq!(h, "ab".repeat(32));
}

#[test]
fn apns_is_silent_background() {
    let r = apns_request(
        "api.push.apple.com",
        "com.unrealjune.streetcryptid",
        "TOKEN",
        &NS,
    );
    assert_eq!(r.url, "https://api.push.apple.com/3/device/TOKEN");
    assert_eq!(header(&r, "apns-push-type"), Some("background"));
    assert_eq!(header(&r, "apns-priority"), Some("5"));
    assert_eq!(
        header(&r, "apns-topic"),
        Some("com.unrealjune.streetcryptid")
    );
    assert_eq!(r.body["aps"]["content-available"], Value::from(1));
    // silent: no alert/sound keys
    assert!(r.body["aps"].get("alert").is_none());
    assert!(r.body["aps"].get("sound").is_none());
    assert_eq!(r.body["type"], Value::from(PUSH_TYPE));
    assert_eq!(r.body["ns"], Value::from("ab".repeat(32)));
}

#[test]
fn fcm_is_data_only_high_priority() {
    let r = fcm_request("street-cryptid", "TOKEN", &NS);
    assert_eq!(
        r.url,
        "https://fcm.googleapis.com/v1/projects/street-cryptid/messages:send"
    );
    assert_eq!(r.body["message"]["token"], Value::from("TOKEN"));
    assert_eq!(r.body["message"]["data"]["type"], Value::from(PUSH_TYPE));
    assert_eq!(r.body["message"]["data"]["ns"], Value::from("ab".repeat(32)));
    assert_eq!(r.body["message"]["android"]["priority"], Value::from("high"));
    assert_eq!(
        r.body["message"]["apns"]["payload"]["aps"]["content-available"],
        Value::from(1)
    );
    // data-only: no notification block (which would route to the tray, not the app)
    assert!(r.body["message"].get("notification").is_none());
}

#[test]
fn apns_payload_holds_nothing_else() {
    let r = apns_request("h", "b", "t", &NS);
    assert_eq!(r.headers.len(), 4);
    assert_eq!(header(&r, "apns-expiration"), Some("0"));
    assert_eq!(
        r.body.to_string(),
        format!(
            r#"{{"aps":{{"content-available":1}},"ns":"{}","type":"trail-sync"}}"#,
            "ab".repeat(32)
        )
    );
}

#[test]
fn fcm_payload_holds_nothing_else() {
    let r = fcm_request("p", "t", &NS);
    assert!(r.headers.is_empty());
    let message = r.body["message"].as_object().unwrap();
    let mut keys: Vec<&str> = message.keys().map(|k| k.as_str()).collect();
    keys.sort();
    assert_eq!(keys, vec!["android", "apns", "data", "token"]);
    assert_eq!(message["data"].as_object().unwrap().len(), 2);
    assert_eq!(
        message["apns"].to_string(),
        r#"{"headers":{"apns-priority":"5","apns-push-type":"background"},"payload":{"aps":{"content-available":1}}}"#
    );
}

#[test]
fn a_trace_context_rides_beside_the_hint() {
    let tp = "00-0af7651916cd43dd8448eb211c80319c-b7ad6b7169203331-01";
    let mut apns = apns_request("h", "b", "t", &NS);
    embed_traceparent(&mut apns, Platform::Apns, tp);
    assert_eq!(apns.body["traceparent"], Value::from(tp));
    assert_eq!(apns.body["aps"]["content-available"], Value::from(1));
    assert!(apns.body["aps"].get("traceparent").is_none());
    let mut fcm = fcm_request("p", "t", &NS);
    embed_traceparent(&mut fcm, Platform::Fcm, tp);
    assert_eq!(fcm.body["message"]["data"]["traceparent"], Value::from(tp));
    assert_eq!(fcm.body["message"]["data"]["type"], Value::from(PUSH_TYPE));
    assert_eq!(fcm.body["message"]["token"], Value::from("t"));
    assert!(fcm.body.get("traceparent").is_none());
}
