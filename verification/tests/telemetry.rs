//! Join keys and export.

use trail_stash::log_redaction::redact_log_line;
use trail_stash::telemetry::{export_plan, instance_id, short_hex};

#[test]
fn short_hex_is_the_ten_char_join_key() {
    assert_eq!(
        short_hex(&[0xab, 0x12, 0xcd, 0x34, 0xef, 0x99]),
        "ab12cd34ef"
    );
}

#[test]
fn short_ids_stay_short() {
    assert_eq!(short_hex(&[]), "");
    assert_eq!(short_hex(&[0x0f]), "0f");
    assert_eq!(instance_id(&[0x1a; 32]), "1a1a1a1a1a");
}

#[test]
fn a_join_key_survives_redaction() {
    let key = short_hex(&[0xab; 32]);
    assert_eq!(redact_log_line(&key, |_| false), key);
    let line = format!("entry {key} received");
    assert_eq!(redact_log_line(&line, |_| false), line);
}

fn text(s: &str) -> Option<String> {
    Some(s.to_string())
}

#[test]
fn telemetry_is_dormant_without_an_endpoint() {
    assert!(export_plan(None, None).is_none());
    assert!(export_plan(text("  "), text("name")).is_none());
    assert!(export_plan(text(" // "), None).is_none());
}

#[test]
fn the_endpoint_is_trimmed_and_the_name_defaults() {
    let plan = export_plan(text(" http://collector:4318// "), text("  ")).unwrap();
    assert_eq!(plan.traces_url, "http://collector:4318/v1/traces");
    assert_eq!(plan.logs_url, "http://collector:4318/v1/logs");
    assert_eq!(plan.service_name, "trail-stash");
    let plan = export_plan(text("http://c"), text(" mine ")).unwrap();
    assert_eq!(plan.service_name, " mine ");
    assert_eq!(export_plan(text("http://c"), None).unwrap().service_name, "trail-stash");
}
