//! The wall clock.

use std::time::{SystemTime, UNIX_EPOCH};
use vstd::prelude::*;

verus! {

/// A reading of the system clock.
#[verifier::external_type_specification]
#[verifier::external_body]
pub struct ExSystemTime(SystemTime);

/// `std::time::SystemTime::now`: the time, of which nothing can be promised.
pub assume_specification[ SystemTime::now ]() -> SystemTime
;

/// `std::time::SystemTime::duration_since` the Unix epoch, in milliseconds; `None` for a time before
/// it. Nothing is promised of the number, which rests on the clock.
#[verifier::external_body]
fn since_epoch(time: SystemTime) -> Option<u128> {
    time.duration_since(UNIX_EPOCH).ok().map(|d| d.as_millis())
}

/// The milliseconds of a clock reading: zero for a clock before the Unix epoch, and the low 64 bits
/// of what does not fit.
pub open spec fn reading_ms(since_epoch: Option<u128>) -> nat {
    match since_epoch {
        Some(ms) => ms as nat % 0x1_0000_0000_0000_0000,
        None => 0,
    }
}

/// The milliseconds of a clock reading.
pub fn clock_ms(since_epoch: Option<u128>) -> (r: u64)
    ensures
        r == reading_ms(since_epoch),
{
    match since_epoch {
        Some(ms) => {
            assert(ms as u64 == ms % 0x1_0000_0000_0000_0000) by (bit_vector);
            #[verifier::truncate]
            (ms as u64)
        },
        None => 0,
    }
}

/// Whether the system clock may give `reading`: `SystemTime::now` gives a time, and `reading` is how
/// far that time is from the Unix epoch.
pub closed spec fn clock_gives(reading: Option<u128>) -> bool {
    exists|time: SystemTime| #[trigger]
        call_ensures(SystemTime::now, (), time) && call_ensures(since_epoch, (time,), reading)
}

/// Wall-clock milliseconds since the Unix epoch: those of a reading of the system clock.
pub fn now_ms() -> (r: u64)
    ensures
        exists|reading: Option<u128>| #[trigger] clock_gives(reading) && r == reading_ms(reading),
{
    let time = SystemTime::now();
    let reading = since_epoch(time);
    assert(call_ensures(SystemTime::now, (), time));
    assert(call_ensures(since_epoch, (time,), reading));
    assert(clock_gives(reading));
    clock_ms(reading)
}

/// Law: a reading that fits is given as it is; of one that does not, only whole multiples of two to
/// the sixty-fourth are lost; and a clock before the epoch reads zero.
pub proof fn law_reading_is_given_as_it_is(since_epoch: Option<u128>, r: u64)
    requires
        call_ensures(clock_ms, (since_epoch,), r),
    ensures
        since_epoch is None ==> r == 0,
        since_epoch matches Some(ms) ==> (ms - r) % 18_446_744_073_709_551_616 == 0,
        since_epoch matches Some(ms) ==> (ms < 18_446_744_073_709_551_616 ==> r == ms),
{
}

} // verus!
