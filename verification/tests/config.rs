//! Configuration from the environment.

use trail_stash::config::{
    parse_list, parse_secret_key, SecretKeyError, StashConfig, DEFAULT_PORT,
    DEFAULT_PRUNE_INTERVAL_MIN, DEFAULT_RETENTION_HOURS, MAX_RETENTION_HOURS,
    MIN_PRUNE_INTERVAL_MIN,
};
use trail_stash::retention::RetentionPolicy;

use std::collections::HashMap;

fn getter(pairs: &[(&str, &str)]) -> impl Fn(&str) -> Option<String> {
    let map: HashMap<String, String> = pairs
        .iter()
        .map(|(k, v)| (k.to_string(), v.to_string()))
        .collect();
    move |k: &str| map.get(k).cloned()
}

#[test]
fn empty_env_uses_defaults() {
    let cfg = StashConfig::from_env(getter(&[]));
    assert_eq!(cfg.port, DEFAULT_PORT);
    assert_eq!(
        cfg.retention,
        RetentionPolicy::from_hours(DEFAULT_RETENTION_HOURS)
    );
    assert_eq!(cfg.prune_interval_min, DEFAULT_PRUNE_INTERVAL_MIN);
}

#[test]
fn parses_custom_values() {
    let cfg = StashConfig::from_env(getter(&[
        ("PORT", "9000"),
        ("TRAIL_STASH_RETENTION_HOURS", "1"),
        ("TRAIL_STASH_PRUNE_INTERVAL_MIN", "5"),
    ]));
    assert_eq!(cfg.port, 9000);
    assert_eq!(cfg.retention, RetentionPolicy::from_hours(1));
    assert_eq!(cfg.prune_interval_min, 5);
}

#[test]
fn clamps_out_of_range() {
    let cfg = StashConfig::from_env(getter(&[
        ("TRAIL_STASH_RETENTION_HOURS", "100000"),
        ("TRAIL_STASH_PRUNE_INTERVAL_MIN", "0"),
    ]));
    assert_eq!(
        cfg.retention,
        RetentionPolicy::from_hours(MAX_RETENTION_HOURS)
    );
    assert_eq!(cfg.prune_interval_min, MIN_PRUNE_INTERVAL_MIN);
}

#[test]
fn junk_falls_back_to_default() {
    let cfg = StashConfig::from_env(getter(&[
        ("PORT", "not-a-port"),
        ("TRAIL_STASH_RETENTION_HOURS", "abc"),
    ]));
    assert_eq!(cfg.port, DEFAULT_PORT);
    assert_eq!(
        cfg.retention,
        RetentionPolicy::from_hours(DEFAULT_RETENTION_HOURS)
    );
}

#[test]
fn zero_port_rejected() {
    let cfg = StashConfig::from_env(getter(&[("PORT", "0")]));
    assert_eq!(cfg.port, DEFAULT_PORT);
}

#[test]
fn psk_parsed_trimmed_and_optional() {
    assert_eq!(StashConfig::from_env(getter(&[])).psk, None);
    assert_eq!(
        StashConfig::from_env(getter(&[("TRAIL_STASH_PSK", "  s3cret  ")])).psk,
        Some("s3cret".to_string())
    );
    // whitespace-only is treated as unset (no key) rather than an empty PSK.
    assert_eq!(
        StashConfig::from_env(getter(&[("TRAIL_STASH_PSK", "   ")])).psk,
        None
    );
}

#[test]
fn relays_are_a_trimmed_list() {
    let cfg = StashConfig::from_env(getter(&[
        (
            "TRAIL_STASH_RELAY_URLS",
            " https://a.example.com , ,https://b.example.com,",
        ),
        ("TRAIL_STASH_RELAY_TOKEN", " tok "),
    ]));
    assert_eq!(
        cfg.relay_urls,
        vec!["https://a.example.com", "https://b.example.com"]
    );
    assert_eq!(cfg.relay_token, Some("tok".to_string()));
    let unset = StashConfig::from_env(getter(&[("TRAIL_STASH_RELAY_TOKEN", "  ")]));
    assert!(unset.relay_urls.is_empty());
    assert_eq!(unset.relay_token, None);
}

#[test]
fn lists_without_parts_are_empty() {
    assert!(parse_list("").is_empty());
    assert!(parse_list(" , ,").is_empty());
    assert_eq!(parse_list("a"), vec!["a"]);
    assert_eq!(parse_list("a b,c"), vec!["a b", "c"]);
}

#[test]
fn knobs_stay_in_bounds() {
    for value in ["0", "1", "336", "337", "18446744073709551615", "-1", "+2", " 7 "] {
        let cfg = StashConfig::from_env(getter(&[
            ("TRAIL_STASH_RETENTION_HOURS", value),
            ("TRAIL_STASH_PRUNE_INTERVAL_MIN", value),
            ("PORT", value),
        ]));
        let hours = cfg.retention.retention_ms() / 3_600_000;
        assert!((1..=336).contains(&hours));
        assert!((1..=1440).contains(&cfg.prune_interval_min));
        assert_ne!(cfg.port, 0);
    }
    let cfg = StashConfig::from_env(getter(&[("PORT", "65536")]));
    assert_eq!(cfg.port, DEFAULT_PORT);
}

#[test]
fn the_secret_key_is_64_lowercase_hex_digits() {
    let hex = "0a".repeat(32);
    assert_eq!(parse_secret_key(Some(&format!(" {hex}\n"))), Ok([10; 32]));
    assert_eq!(parse_secret_key(None), Err(SecretKeyError::Missing));
    assert_eq!(
        parse_secret_key(Some(&hex.to_uppercase())),
        Err(SecretKeyError::Malformed)
    );
    assert_eq!(parse_secret_key(Some("")), Err(SecretKeyError::Malformed));
    assert_eq!(
        SecretKeyError::Missing.message(),
        "TRAIL_STASH_SECRET_KEY is required (64 hex chars). Generate one with: openssl rand -hex 32"
    );
    assert_eq!(
        SecretKeyError::Malformed.message(),
        "TRAIL_STASH_SECRET_KEY must be exactly 64 lowercase hex chars"
    );
}
