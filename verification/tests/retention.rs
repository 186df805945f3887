//! The retention window.

use trail_stash::retention::{RetentionPolicy, MS_PER_HOUR};

#[test]
fn cutoff_is_now_minus_window() {
    let p = RetentionPolicy::from_hours(48);
    let now = 100 * MS_PER_HOUR;
    assert_eq!(p.cutoff(now), 52 * MS_PER_HOUR);
}

#[test]
fn expiry_uses_strict_older_than_boundary() {
    let p = RetentionPolicy::from_hours(1);
    let now = 10 * MS_PER_HOUR;
    let cutoff = p.cutoff(now); // 9h
    assert!(p.is_expired(cutoff - 1, now)); // strictly older → pruned
    assert!(!p.is_expired(cutoff, now)); // exactly at cutoff → kept
    assert!(!p.is_expired(now, now)); // fresh → kept
}

#[test]
fn saturates_near_epoch_instead_of_wrapping() {
    let p = RetentionPolicy::from_hours(48);
    // now smaller than the window must clamp the cutoff to 0, not wrap around.
    assert_eq!(p.cutoff(MS_PER_HOUR), 0);
    assert!(!p.is_expired(0, MS_PER_HOUR));
}

#[test]
fn short_one_hour_window_supported() {
    let p = RetentionPolicy::from_hours(1);
    assert_eq!(p.retention_ms(), MS_PER_HOUR);
}

#[test]
fn absurd_windows_saturate() {
    let p = RetentionPolicy::from_hours(u64::MAX);
    assert_eq!(p.retention_ms(), u64::MAX);
    assert_eq!(p.cutoff(u64::MAX), 0);
    assert!(!p.is_expired(0, u64::MAX));
    assert_eq!(RetentionPolicy::from_hours(0).cutoff(5), 5);
}

#[test]
fn an_entry_from_the_future_is_kept() {
    let p = RetentionPolicy::from_hours(1);
    assert!(!p.is_expired(20 * MS_PER_HOUR, 10 * MS_PER_HOUR));
}
