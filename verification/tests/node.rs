//! The node's state, step by step.

use std::sync::Mutex;

use trail_stash::entry::{DocEntry, Listing};
use trail_stash::mls::{Admission, DeliveryService, EnvelopeRef};
use trail_stash::node::{
    default_delivery, default_waker, Arrival, SettlePass, StashNode, Wake, WakePlan,
    SETTLE_INTERVAL_MS,
};
use trail_stash::retention::{RetentionPolicy, MS_PER_HOUR};
use trail_stash::subscriptions::{Platform, PushSubscription};
use trail_stash::waker::Waker;

const NS_A: [u8; 32] = [1; 32];
const NS_B: [u8; 32] = [2; 32];
const HASH: [u8; 32] = [9; 32];
const OTHER: [u8; 32] = [8; 32];
const PEER: [u8; 32] = [5; 32];

fn node() -> StashNode {
    let mut node = StashNode::new(RetentionPolicy::from_hours(1));
    node.register(NS_A, Some(sub("phone-a")));
    node.register(NS_B, None);
    node
}

fn sub(token: &str) -> PushSubscription {
    PushSubscription {
        platform: Platform::Apns,
        token: token.to_string(),
    }
}

fn arrival(ns: [u8; 32], hash: [u8; 32]) -> Arrival {
    let key = format!("{}/{:020}", "ab".repeat(32), 3u64);
    Arrival::new(ns, hash, key.as_bytes(), PEER)
}

fn listing(namespace: [u8; 32], entries: &[([u8; 32], u64)]) -> Listing {
    Listing {
        namespace,
        entries: entries
            .iter()
            .map(|(hash, ms)| DocEntry {
                hash: *hash,
                timestamp_us: ms * 1_000,
            })
            .collect(),
    }
}

#[test]
fn registration_is_new_once() {
    let mut node = StashNode::new(RetentionPolicy::from_hours(1));
    assert!(!node.is_known(&NS_A));
    assert!(node.register(NS_A, None));
    assert!(!node.register(NS_A, Some(sub("x"))));
    assert!(node.is_known(&NS_A));
    assert_eq!(node.known_namespaces(), vec![NS_A]);
}

#[test]
fn an_arrival_is_missing_until_its_bytes_land() {
    let mut node = node();
    let arrival = arrival(NS_A, HASH);
    assert_eq!(arrival.author, vec![0xab; 32]);
    assert_eq!(arrival.seq, 3);
    node.arrived(&arrival, 100);
    assert_eq!(node.content_stats(), (1, 1));
    assert_eq!(node.referenced(), vec![HASH]);
    assert!(node.arrival_checked(&arrival, false).is_none());
    let wake = node.settle(HASH, true, true, 200).expect("content landed");
    assert_eq!(node.content_stats(), (0, 1));
    assert_eq!(
        (wake.hash, wake.namespace, wake.seq, wake.degraded),
        (HASH, NS_A, 3, false)
    );
    assert_eq!(wake.author, vec![0xab; 32]);
}

#[test]
fn content_that_is_already_here_wakes_at_once() {
    let mut node = node();
    let arrival = arrival(NS_A, HASH);
    node.arrived(&arrival, 100);
    let wake = node.arrival_checked(&arrival, true).expect("already here");
    assert!(!wake.degraded);
    assert_eq!(node.content_stats(), (0, 1));
    assert!(node.outstanding(100).is_empty());
}

#[test]
fn wakes_fire_once() {
    let mut node = node();
    let arrival = arrival(NS_A, HASH);
    node.arrived(&arrival, 100);
    assert!(node.arrival_checked(&arrival, true).is_some());
    // The same record again, from whichever side it is looked at.
    node.arrived(&arrival, 200);
    assert!(node.arrival_checked(&arrival, true).is_none());
    assert!(node.settle(HASH, true, true, 300).is_none());
    assert!(node.settle(HASH, true, false, 100_000).is_none());
    assert_eq!(node.content_stats(), (0, 1));
}

#[test]
fn an_entry_without_content_is_announced_in_the_end() {
    let mut node = node();
    node.arrived(&arrival(NS_A, HASH), 1_000);
    assert!(node.settle(HASH, false, false, 30_999).is_none());
    let wake = node.settle(HASH, false, false, 31_000).expect("overdue");
    assert!(wake.degraded);
    assert!(node.settle(HASH, false, false, 32_000).is_none());
    // It is still fetched, and counts as missing until it is there.
    assert_eq!(node.content_stats(), (1, 1));
    assert_eq!(node.outstanding(40_000).len(), 1);
    assert!(node.settle(HASH, true, true, 50_000).is_none());
    assert_eq!(node.content_stats(), (0, 1));
}

#[test]
fn a_clock_that_runs_backwards_is_not_overdue() {
    let mut node = node();
    node.arrived(&arrival(NS_A, HASH), 50_000);
    assert!(node.settle(HASH, false, false, 10).is_none());
}

#[test]
fn failed_fetches_back_off() {
    let mut node = node();
    node.arrived(&arrival(NS_A, HASH), 0);
    assert!(node.outstanding(0)[0].due);
    node.settle(HASH, true, false, 1_000);
    assert!(!node.outstanding(1_999)[0].due);
    assert!(node.outstanding(2_000)[0].due);
    node.settle(HASH, true, false, 2_000);
    assert!(!node.outstanding(3_999)[0].due);
    assert!(node.outstanding(4_000)[0].due);
    // A pass without a fetch does not push the next one back.
    node.settle(HASH, false, false, 3_000);
    assert!(node.outstanding(4_000)[0].due);
    // Nor does the record arriving again.
    node.arrived(&arrival(NS_A, HASH), 3_500);
    assert!(!node.outstanding(3_999)[0].due);
}

#[test]
fn a_fetch_is_tried_when_due_and_needed() {
    let mut node = node();
    node.arrived(&arrival(NS_A, HASH), 0);
    let item = &node.outstanding(0)[0];
    assert_eq!(item.hash, HASH);
    assert!(item.fetch_now(false));
    assert!(!item.fetch_now(true));
    assert_eq!(item.sources[0], PEER);
    node.settle(HASH, true, false, 0);
    assert!(!node.outstanding(0)[0].fetch_now(false));
}

#[test]
fn settling_a_hash_that_is_gone_does_nothing() {
    let mut node = node();
    assert!(node.settle(HASH, true, true, 1_000_000).is_none());
    assert!(node.arrival_checked(&arrival(NS_A, HASH), true).is_none());
    assert_eq!(node.content_stats(), (0, 0));
}

#[test]
fn pruning_releases_expired_content_once() {
    let mut node = node();
    let arrival = arrival(NS_A, HASH);
    node.arrived(&arrival, 0);
    node.arrival_checked(&arrival, true);
    assert_eq!(node.content_stats(), (0, 1));
    let listings = vec![listing(NS_A, &[(HASH, 1_000)])];
    // At the cutoff the entry is kept.
    assert_eq!(node.prune_once(&listings, MS_PER_HOUR + 1_000), 0);
    assert_eq!(node.prune_once(&listings, MS_PER_HOUR + 1_001), 1);
    assert_eq!(node.content_stats(), (0, 0));
    assert!(node.referenced().is_empty());
    // The record stays listed; its blob is not released again.
    assert_eq!(node.prune_once(&listings, MS_PER_HOUR + 1_001), 0);
    assert!(node.is_known(&NS_A));
}

#[test]
fn a_zero_window_expires_everything() {
    let mut node = StashNode::new(RetentionPolicy::from_hours(0));
    node.register(NS_A, None);
    node.arrived(&arrival(NS_A, HASH), 0);
    let listings = vec![listing(NS_A, &[(HASH, 1_000)])];
    assert_eq!(node.prune_once(&listings, 1_000 + 3_600_000), 1);
    assert_eq!(node.content_stats(), (0, 0));
}

#[test]
fn shared_content_goes_with_its_last_reference() {
    let mut node = node();
    node.arrived(&arrival(NS_A, HASH), 0);
    node.arrived(&arrival(NS_B, HASH), 0);
    let late = 10 * MS_PER_HOUR;
    let expired_a = listing(NS_A, &[(HASH, 0)]);
    let fresh_b = listing(NS_B, &[(HASH, late)]);
    assert_eq!(node.prune_once(&vec![expired_a, fresh_b], late), 0);
    assert_eq!(node.content_stats(), (1, 1));
    assert_eq!(node.outstanding(late).len(), 1);
    assert_eq!(node.prune_once(&vec![listing(NS_B, &[(HASH, 0)])], late), 1);
    assert_eq!(node.content_stats(), (0, 0));
}

#[test]
fn a_fresh_entry_keeps_what_an_expired_one_shares_with_it() {
    let mut node = node();
    node.arrived(&arrival(NS_A, HASH), 0);
    node.arrived(&arrival(NS_A, OTHER), 0);
    let late = 10 * MS_PER_HOUR;
    let listings = vec![listing(NS_A, &[(HASH, 0), (OTHER, 0), (HASH, late), (OTHER, 5)])];
    assert_eq!(node.prune_once(&listings, late), 1);
    assert_eq!(node.referenced(), vec![HASH]);
}

#[test]
fn pruning_leaves_what_is_not_listed() {
    let mut node = node();
    node.arrived(&arrival(NS_A, HASH), 0);
    assert_eq!(node.prune_once(&Vec::new(), u64::MAX), 0);
    assert_eq!(
        node.prune_once(&vec![listing(NS_B, &[(HASH, 0)])], 10 * MS_PER_HOUR),
        0
    );
    assert_eq!(node.content_stats(), (1, 1));
}

#[test]
fn a_fresh_entry_in_another_listing_keeps_its_content() {
    let mut node = node();
    node.arrived(&arrival(NS_A, HASH), 0);
    let late = 10 * MS_PER_HOUR;
    let expired = || listing(NS_A, &[(HASH, 0)]);
    let fresh = listing(NS_A, &[(HASH, late)]);
    assert_eq!(node.prune_once(&vec![expired(), fresh], late), 0);
    assert_eq!(node.referenced(), vec![HASH]);
    let without = listing(NS_A, &[(OTHER, late)]);
    assert_eq!(node.prune_once(&vec![expired(), without], late), 1);
}

#[test]
fn a_wake_in_one_namespace_takes_none_from_another() {
    let mut node = node();
    node.register(NS_B, Some(sub("phone-b")));
    let in_a = arrival(NS_A, HASH);
    let in_b = arrival(NS_B, HASH);
    node.arrived(&in_a, 0);
    assert!(node.arrival_checked(&in_a, false).is_none());
    node.arrived(&in_b, 10);
    let wake = node.arrival_checked(&in_b, true).expect("the bytes are here");
    assert_eq!(wake.namespace, NS_B);
    assert_eq!(node.content_stats(), (0, 1));
    // B had its wake; A is still owed one, and the next pass gives it.
    assert!(node.arrival_checked(&in_b, true).is_none());
    let mut pass = SettlePass::start(&node, 20);
    assert_eq!(pass.current().map(|item| item.hash), Some(HASH));
    pass.settled(&mut node, true);
    let wakes = pass.finish();
    assert_eq!(wakes.len(), 1);
    assert_eq!((wakes[0].namespace, wakes[0].degraded), (NS_A, false));
    assert!(node.outstanding(30).is_empty());
    assert!(node.arrival_checked(&in_a, true).is_none());
}

#[test]
fn a_second_namespace_is_woken_for_content_that_is_here() {
    let mut node = node();
    let in_a = arrival(NS_A, HASH);
    node.arrived(&in_a, 0);
    assert!(node.arrival_checked(&in_a, true).is_some());
    let in_b = arrival(NS_B, HASH);
    node.arrived(&in_b, 10);
    let wake = node.arrival_checked(&in_b, true).expect("new in B");
    assert_eq!(wake.namespace, NS_B);
    assert!(node.arrival_checked(&in_b, true).is_none());
    assert!(node.outstanding(20).is_empty());
}

#[test]
fn a_settle_pass_asks_the_delivering_peer_first() {
    let mut node = node();
    let author = iroh::SecretKey::from_bytes(&[3u8; 32]).public();
    let hex: String = author.as_bytes().iter().map(|b| format!("{b:02x}")).collect();
    let key = format!("{hex}/{:020}", 1u64);
    node.arrived(&Arrival::new(NS_A, HASH, key.as_bytes(), PEER), 0);
    // An author that is no endpoint: only the peer can be asked.
    node.arrived(&Arrival::new(NS_A, OTHER, b"abcd/1", PEER), 0);
    let mut pass = SettlePass::start(&node, 0);
    let first = pass.current().expect("two entries");
    assert_eq!(first.hash, HASH);
    assert_eq!(first.sources, vec![PEER, *author.as_bytes()]);
    pass.settled(&mut node, false);
    let second = pass.current().expect("two entries");
    assert_eq!(second.hash, OTHER);
    assert_eq!(second.sources, vec![PEER]);
}

#[test]
fn a_settle_pass_wakes_for_each_hash_once() {
    let mut node = node();
    node.arrived(&arrival(NS_A, HASH), 0);
    node.arrived(&arrival(NS_A, OTHER), 40_000);
    let mut pass = SettlePass::start(&node, 40_000);
    let mut seen = Vec::new();
    while let Some(item) = pass.current() {
        assert!(item.due);
        seen.push(item.hash);
        // HASH is overdue and still missing; the bytes of OTHER have landed.
        let present = item.hash == OTHER;
        pass.settled(&mut node, present);
        // The same record again, in the middle of the pass.
        node.arrived(&arrival(NS_A, HASH), 40_000);
    }
    assert_eq!(seen, vec![HASH, OTHER]);
    let wakes: Vec<([u8; 32], bool)> = pass
        .finish()
        .iter()
        .map(|w| (w.hash, w.degraded))
        .collect();
    assert_eq!(wakes, vec![(HASH, true), (OTHER, false)]);
    // The next pass has only HASH to go through, and wakes nobody again.
    let mut pass = SettlePass::start(&node, 50_000);
    assert_eq!(pass.current().map(|item| item.hash), Some(HASH));
    pass.settled(&mut node, true);
    assert!(pass.current().is_none());
    assert!(pass.finish().is_empty());
    assert_eq!(node.content_stats(), (0, 2));
}

/// Keeps what it is shown and refuses handshakes.
#[derive(Default)]
struct Recorder {
    seen: Mutex<Vec<(Vec<u8>, u64, Vec<u8>)>>,
}

impl DeliveryService for Recorder {
    fn admission(&self, envelope: &EnvelopeRef<'_>) -> Admission {
        self.seen.lock().unwrap().push((
            envelope.author.to_vec(),
            envelope.seq,
            envelope.bytes.to_vec(),
        ));
        if envelope.bytes.first() == Some(&0xff) {
            Admission::Reject("handshake".to_string())
        } else {
            Admission::Accept
        }
    }
}

fn wake(namespace: [u8; 32], degraded: bool) -> Wake {
    Wake {
        hash: HASH,
        namespace,
        author: vec![4, 5],
        seq: 6,
        degraded,
    }
}

#[test]
fn subscribers_are_woken_for_what_is_accepted() {
    let mut node = node();
    node.register(NS_A, Some(sub("tablet")));
    node.register(NS_A, Some(sub("tablet")));
    let service = Recorder::default();
    match node.wake_for(&service, &wake(NS_A, false), Some(vec![1, 2])) {
        WakePlan::Push(targets) => {
            let mut tokens: Vec<String> = targets.into_iter().map(|s| s.token).collect();
            tokens.sort();
            assert_eq!(tokens, vec!["phone-a", "tablet"]);
        }
        plan => panic!("unexpected {plan:?}"),
    }
    assert_eq!(
        *service.seen.lock().unwrap(),
        vec![(vec![4, 5], 6, vec![1, 2])]
    );
}

#[test]
fn nobody_is_woken_for_what_is_refused_or_unasked() {
    let node = node();
    let service = Recorder::default();
    assert!(matches!(
        node.wake_for(&service, &wake(NS_A, false), Some(vec![0xff])),
        WakePlan::Refused(reason) if reason == "handshake"
    ));
    assert!(matches!(
        node.wake_for(&service, &wake(NS_B, false), None),
        WakePlan::Nobody
    ));
}

#[test]
fn without_content_the_service_sees_no_bytes() {
    let node = node();
    let service = Recorder::default();
    node.wake_for(&service, &wake(NS_A, true), Some(vec![0xff]));
    node.wake_for(&service, &wake(NS_A, false), None);
    let seen = service.seen.lock().unwrap();
    assert!(seen.iter().all(|(_, _, bytes)| bytes.is_empty()));
    assert_eq!(seen.len(), 2);
}

#[test]
fn a_verdict_decides_the_plan() {
    let node = node();
    assert!(matches!(
        node.plan_wake(&NS_A, Admission::Accept),
        WakePlan::Push(targets) if targets == vec![sub("phone-a")]
    ));
    assert!(matches!(
        node.plan_wake(&NS_B, Admission::Accept),
        WakePlan::Nobody
    ));
    assert!(matches!(
        node.plan_wake(&NS_A, Admission::Reject("no".to_string())),
        WakePlan::Refused(reason) if reason == "no"
    ));
}

#[test]
fn unsubscribing_stops_the_wake() {
    let mut node = node();
    assert!(node.unsubscribe(&NS_A, &sub("phone-a")));
    assert!(!node.unsubscribe(&NS_A, &sub("phone-a")));
    assert!(matches!(
        node.plan_wake(&NS_A, Admission::Accept),
        WakePlan::Nobody
    ));
    assert!(node.is_known(&NS_A));
}

#[test]
fn the_defaults_pass_everything_and_wake_nobody() {
    let ns = [0u8; 32];
    let envelope = EnvelopeRef {
        namespace: &ns,
        author: &[],
        seq: 0,
        bytes: &[1],
    };
    assert_eq!(default_delivery().admission(&envelope), Admission::Accept);
    default_waker().wake(&ns, &[sub("x")]);
    assert_eq!(SETTLE_INTERVAL_MS, 250);
}
