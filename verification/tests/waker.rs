//! The push-to-sync seam.

use trail_stash::subscriptions::{NamespaceId, Platform, PushSubscription};
use trail_stash::waker::{
    build, build_all, build_all_given, build_given, non_empty, trouble_line, NoopWaker, PushConfig,
    PushCredentials, PushTrouble, Waker,
};

use std::sync::Mutex;

/// Records wake calls so a test can assert who would have been pushed.
#[derive(Default)]
struct RecordingWaker {
    calls: Mutex<Vec<(NamespaceId, usize)>>,
}
impl Waker for RecordingWaker {
    fn wake(&self, namespace: &NamespaceId, targets: &[PushSubscription]) {
        self.calls.lock().unwrap().push((*namespace, targets.len()));
    }
}

#[test]
fn noop_waker_is_a_safe_default() {
    let w = NoopWaker;
    w.wake(&[0u8; 32], &[]); // must not panic
}

#[test]
fn recording_waker_captures_targets() {
    let w = RecordingWaker::default();
    let ns = [5u8; 32];
    let targets = vec![PushSubscription {
        platform: Platform::Fcm,
        token: "abc".to_string(),
    }];
    w.wake(&ns, &targets);
    let calls = w.calls.lock().unwrap();
    assert_eq!(calls.as_slice(), &[(ns, 1)]);
}

fn text(s: &str) -> Option<String> {
    Some(s.to_string())
}

fn routes() -> PushConfig {
    PushConfig::from_values(text("com.example.app"), text("project"), None).unwrap()
}

#[test]
fn empty_values_count_as_unset() {
    assert_eq!(non_empty(None), None);
    assert_eq!(non_empty(text("")), None);
    assert_eq!(non_empty(text(" ")), text(" "));
}

#[test]
fn a_route_needs_a_bundle_or_a_project() {
    assert!(PushConfig::from_values(None, None, text("host")).is_none());
    assert!(PushConfig::from_values(text(""), text(""), None).is_none());
    let apns = PushConfig::from_values(text("com.example.app"), None, None).unwrap();
    assert_eq!(apns.apns_host, "api.push.apple.com");
    assert_eq!(apns.bundle_id, "com.example.app");
    assert_eq!(apns.fcm_project_id, "");
    let fcm = PushConfig::from_values(text(""), text("project"), text("sandbox")).unwrap();
    assert_eq!(fcm.apns_host, "sandbox");
    assert_eq!(fcm.bundle_id, "");
    assert_eq!(fcm.fcm_project_id, "project");
}

/// Has a credential for APNs only.
struct ApnsOnly;

impl PushCredentials for ApnsOnly {
    fn apns_bearer(&self) -> Option<String> {
        text("jwt")
    }

    fn fcm_bearer(&self) -> Option<String> {
        None
    }
}

#[test]
fn each_platform_uses_its_own_route_and_credential() {
    let ns = [3u8; 32];
    let apns = PushSubscription {
        platform: Platform::Apns,
        token: "device".to_string(),
    };
    let (request, bearer) = build(&routes(), &ApnsOnly, &ns, &apns).unwrap();
    assert_eq!(request.url, "https://api.push.apple.com/3/device/device");
    assert_eq!(bearer, "jwt");
    let fcm = PushSubscription {
        platform: Platform::Fcm,
        token: "device".to_string(),
    };
    assert!(build(&routes(), &ApnsOnly, &ns, &fcm).is_none());
    let (request, bearer) = build_given(&routes(), &ns, &fcm, text("oauth")).unwrap();
    assert_eq!(
        request.url,
        "https://fcm.googleapis.com/v1/projects/project/messages:send"
    );
    assert_eq!(bearer, "oauth");
    assert_eq!(request.body["message"]["token"].as_str(), Some("device"));
    assert!(build_given(&routes(), &ns, &apns, None).is_none());
}

#[test]
fn a_target_without_a_credential_stops_nobody() {
    let ns = [3u8; 32];
    let target = |platform, token: &str| PushSubscription {
        platform,
        token: token.to_string(),
    };
    let targets = vec![
        target(Platform::Fcm, "a"),
        target(Platform::Apns, "b"),
        target(Platform::Fcm, "c"),
        target(Platform::Apns, "d"),
    ];
    let built = build_all(&routes(), &ApnsOnly, &ns, &targets);
    let urls: Vec<Option<&str>> = built
        .iter()
        .map(|push| push.as_ref().map(|(request, _)| request.url.as_str()))
        .collect();
    assert_eq!(
        urls,
        vec![
            None,
            Some("https://api.push.apple.com/3/device/b"),
            None,
            Some("https://api.push.apple.com/3/device/d"),
        ]
    );
    let bearers = vec![text("1"), None, text("3"), None];
    let built = build_all_given(&routes(), &ns, &targets, bearers);
    let sent: Vec<Option<&str>> = built
        .iter()
        .map(|push| push.as_ref().map(|(_, bearer)| bearer.as_str()))
        .collect();
    assert_eq!(sent, vec![Some("1"), None, Some("3"), None]);
    assert!(build_all(&routes(), &ApnsOnly, &ns, &[]).is_empty());
}

#[test]
fn log_lines_do_not_tell_tokens() {
    let target = |platform, token: &str| PushSubscription {
        platform,
        token: token.to_string(),
    };
    let one = target(Platform::Apns, "first-token-1234");
    let two = target(Platform::Apns, "second-token-5678");
    let cases = [
        (
            PushTrouble::NoCredential,
            "stash: no push credential for apns:[REDACTED]",
        ),
        (
            PushTrouble::Status("410 Gone".to_string()),
            "stash: push apns:[REDACTED] -> 410 Gone",
        ),
        (
            PushTrouble::Failed("timed out".to_string()),
            "stash: push apns:[REDACTED] failed: timed out",
        ),
    ];
    for (trouble, line) in cases {
        assert_eq!(trouble_line(&one, &trouble), line);
        assert_eq!(trouble_line(&two, &trouble), line);
    }
    assert_eq!(
        trouble_line(&target(Platform::Fcm, "x"), &PushTrouble::NoCredential),
        "stash: no push credential for fcm:[REDACTED]"
    );
}
