//! Retention: hold updates for a while, then drop them. The clock is an argument, so the policy is
//! a pure function of it.

use vstd::prelude::*;

verus! {

/// Milliseconds in one hour.
pub const MS_PER_HOUR: u64 = 3_600_000;

/// A retention window. All timestamps are milliseconds since the Unix epoch.
#[derive(Debug, Clone, Copy, PartialEq, Eq)]
pub struct RetentionPolicy {
    retention_ms: u64,
}

/// The window length of `hours`, no greater than the clock can hold.
pub open spec fn window_ms(hours: nat) -> nat {
    if hours * MS_PER_HOUR > u64::MAX {
        u64::MAX as nat
    } else {
        hours * MS_PER_HOUR as nat
    }
}

/// The start of a window of `window` milliseconds that ends at `now`.
pub open spec fn cutoff_ms(window: nat, now: nat) -> nat {
    if now < window {
        0
    } else {
        (now - window) as nat
    }
}

impl View for RetentionPolicy {
    type V = nat;

    /// The window length in milliseconds.
    closed spec fn view(&self) -> nat {
        self.retention_ms as nat
    }
}

impl RetentionPolicy {
    /// Retains the last `hours` of entries. An absurd window saturates.
    pub fn from_hours(hours: u64) -> (r: Self)
        ensures
            r@ == window_ms(hours as nat),
    {
        match hours.checked_mul(MS_PER_HOUR) {
            Some(retention_ms) => RetentionPolicy { retention_ms },
            None => RetentionPolicy { retention_ms: u64::MAX },
        }
    }

    /// The window length in milliseconds.
    pub fn retention_ms(&self) -> (r: u64)
        ensures
            r == self@,
    {
        self.retention_ms
    }

    /// Entries older than this are due to be pruned. A window that is longer than `now` starts at
    /// zero.
    pub fn cutoff(&self, now_ms: u64) -> (r: u64)
        ensures
            r == cutoff_ms(self@, now_ms as nat),
    {
        if now_ms < self.retention_ms {
            0
        } else {
            now_ms - self.retention_ms
        }
    }

    /// Whether an entry written at `entry_ts_ms` is outside the window. One exactly at the cutoff
    /// is kept.
    pub fn is_expired(&self, entry_ts_ms: u64, now_ms: u64) -> (r: bool)
        ensures
            r == (entry_ts_ms < cutoff_ms(self@, now_ms as nat)),
    {
        entry_ts_ms < self.cutoff(now_ms)
    }
}

/// Law: an entry expires exactly when its age exceeds the window; in particular one at the cutoff,
/// a fresh one and one from the future are kept.
pub proof fn law_expiry_is_age_beyond_window(window: nat, written: nat, now: nat)
    ensures
        written < cutoff_ms(window, now) <==> now - written > window,
{
}

/// Law: what has expired stays expired as time goes on.
pub proof fn law_expiry_is_permanent(window: nat, written: nat, now: nat, later: nat)
    requires
        now <= later,
        written < cutoff_ms(window, now),
    ensures
        written < cutoff_ms(window, later),
{
}

/// Law: a longer window never expires what a shorter one keeps.
pub proof fn law_longer_window_keeps_more(hours: nat, more: nat, written: nat, now: nat)
    requires
        hours <= more,
        written >= cutoff_ms(window_ms(hours), now),
    ensures
        window_ms(hours) <= window_ms(more) <= u64::MAX,
        written >= cutoff_ms(window_ms(more), now),
{
    assert(hours * MS_PER_HOUR <= more * MS_PER_HOUR) by (nonlinear_arith)
        requires
            hours <= more,
    ;
}

/// Law: a window of so many hours is that many times 3,600,000 milliseconds, or the most that the
/// clock can hold where that is less.
pub proof fn law_window_is_whole_hours(hours: u64, r: RetentionPolicy)
    requires
        call_ensures(RetentionPolicy::from_hours, (hours,), r),
    ensures
        hours <= 5_124_095_576_030 ==> r@ == hours * 3_600_000,
        hours > 5_124_095_576_030 ==> r@ == 18_446_744_073_709_551_615,
{
}

/// Law: an entry counts as expired exactly when more milliseconds than the window lie between its
/// writing and now; and the cutoff is the earliest time that does not.
pub proof fn law_expired_means_older_than_the_window(
    policy: RetentionPolicy,
    written: u64,
    now: u64,
    expired: bool,
    cutoff: u64,
)
    requires
        call_ensures(RetentionPolicy::is_expired, (&policy, written, now), expired),
        call_ensures(RetentionPolicy::cutoff, (&policy, now), cutoff),
    ensures
        expired <==> written + policy@ < now,
        now >= policy@ ==> cutoff + policy@ == now,
        now < policy@ ==> cutoff == 0,
{
}

/// Law: the window that is told is the window that is kept.
pub proof fn law_window_is_told(policy: RetentionPolicy, hours: u64, told: u64)
    requires
        call_ensures(RetentionPolicy::from_hours, (hours,), policy),
        call_ensures(RetentionPolicy::retention_ms, (&policy,), told),
    ensures
        hours <= 5_124_095_576_030 ==> told == hours * 3_600_000,
        hours > 5_124_095_576_030 ==> told == 18_446_744_073_709_551_615,
{
    law_window_is_whole_hours(hours, policy);
}

} // verus!
