//! The wall clock.

use trail_stash::clock::clock_ms;
use trail_stash::node::now_ms;

#[test]
fn a_reading_keeps_its_low_bits() {
    assert_eq!(clock_ms(None), 0);
    assert_eq!(clock_ms(Some(1_700_000_000_000)), 1_700_000_000_000);
    assert_eq!(clock_ms(Some((1u128 << 64) + 3)), 3);
}

#[test]
fn the_clock_is_past_2020_and_does_not_jump() {
    let first = now_ms();
    let second = now_ms();
    assert!(first > 1_577_836_800_000);
    assert!(second >= first && second - first < 60_000);
}
