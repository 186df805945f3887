//! The namespace registry.

use trail_stash::subscriptions::{NamespaceRegistry, Platform, PushSubscription};

fn sub(tok: &str) -> PushSubscription {
    PushSubscription {
        platform: Platform::Apns,
        token: tok.to_string(),
    }
}

#[test]
fn first_register_is_new_then_idempotent() {
    let mut reg = NamespaceRegistry::new();
    let ns = [1u8; 32];
    assert!(reg.register(ns, Some(sub("aaaa1111"))));
    assert!(!reg.register(ns, Some(sub("bbbb2222"))));
    assert!(reg.is_known(&ns));
}

#[test]
fn wake_targets_dedupe_identical_subscriptions() {
    let mut reg = NamespaceRegistry::new();
    let ns = [2u8; 32];
    reg.register(ns, Some(sub("token-xyz")));
    reg.register(ns, Some(sub("token-xyz"))); // same device re-registers
    reg.register(ns, Some(sub("other-dev")));
    assert_eq!(reg.wake_targets(&ns).len(), 2);
}

#[test]
fn unsubscribe_removes_target_but_keeps_namespace_known() {
    let mut reg = NamespaceRegistry::new();
    let ns = [3u8; 32];
    let s = sub("wake-me");
    reg.register(ns, Some(s.clone()));
    assert!(reg.unsubscribe(&ns, &s));
    assert!(!reg.unsubscribe(&ns, &s)); // already gone
    assert!(reg.wake_targets(&ns).is_empty());
    assert!(reg.is_known(&ns)); // still replicated
}

#[test]
fn register_without_subscription_still_marks_known() {
    let mut reg = NamespaceRegistry::new();
    let ns = [4u8; 32];
    assert!(reg.register(ns, None));
    assert!(reg.is_known(&ns));
    assert!(reg.wake_targets(&ns).is_empty());
}

#[test]
fn redacted_never_reveals_full_token() {
    let s = sub("supersecrettoken1234");
    let r = s.redacted();
    assert_eq!(r, "apns:…1234");
    assert!(!r.contains("supersecret"));
}

#[test]
fn known_namespaces_lists_all_grants() {
    let mut reg = NamespaceRegistry::new();
    reg.register([5u8; 32], None);
    reg.register([6u8; 32], Some(sub("t")));
    let mut all = reg.known_namespaces();
    all.sort();
    assert_eq!(all, vec![[5u8; 32], [6u8; 32]]);
}

#[test]
fn a_short_token_is_not_shown_at_all() {
    assert_eq!(sub("1234").redacted(), "apns:…");
    assert_eq!(sub("").redacted(), "apns:…");
    assert_eq!(sub("x1234").redacted(), "apns:…1234");
}

#[test]
fn platforms_have_wire_names() {
    assert_eq!(Platform::Apns.as_str(), "apns");
    assert_eq!(Platform::Fcm.as_str(), "fcm");
}

#[test]
fn registries_start_empty() {
    let reg = NamespaceRegistry::default();
    assert!(reg.known_namespaces().is_empty());
    assert!(reg.wake_targets(&[1u8; 32]).is_empty());
    assert!(!reg.is_known(&[1u8; 32]));
}

#[test]
fn targets_are_told_apart_by_namespace_and_platform() {
    let mut reg = NamespaceRegistry::new();
    let fcm = PushSubscription {
        platform: Platform::Fcm,
        token: "t".to_string(),
    };
    reg.register([1u8; 32], Some(sub("t")));
    reg.register([2u8; 32], Some(fcm.clone()));
    assert_eq!(reg.wake_targets(&[1u8; 32]), vec![sub("t")]);
    assert_eq!(reg.wake_targets(&[2u8; 32]), vec![fcm.clone()]);
    assert!(!reg.unsubscribe(&[1u8; 32], &fcm));
    assert!(reg.unsubscribe(&[1u8; 32], &sub("t")));
    assert_eq!(reg.wake_targets(&[2u8; 32]), vec![fcm]);
}

#[test]
fn logs_name_the_platform_and_nothing_of_the_token() {
    assert_eq!(sub("supersecrettoken1234").log_label(), "apns:[REDACTED]");
    let fcm = PushSubscription {
        platform: Platform::Fcm,
        token: "x".to_string(),
    };
    assert_eq!(fcm.log_label(), "fcm:[REDACTED]");
}
