//! Characters, numbers and hexadecimal.

use trail_stash::text::{
    alphanumeric, characters, eq_ignore_case, parse_decimal, parse_hex, parse_hex_32, same_text,
    split_once, to_hex, trim, white_space,
};

fn number(s: &str, max: u64) -> Option<u64> {
    parse_decimal(&characters(s), max)
}

#[test]
fn white_space_is_the_unicode_property() {
    for n in 0..=0x10ffff_u32 {
        if let Some(c) = char::from_u32(n) {
            assert_eq!(white_space(c), c.is_whitespace(), "{n:x}");
        }
    }
}

#[test]
fn alphanumeric_is_ascii_only() {
    for n in 0..=0x10ffff_u32 {
        if let Some(c) = char::from_u32(n) {
            assert_eq!(alphanumeric(c), c.is_ascii_alphanumeric(), "{n:x}");
        }
    }
}

#[test]
fn trimming_takes_white_space_off_both_ends() {
    for s in ["", " ", "a", "  a b  ", "\u{3000}x\u{2003}", "\tä\n", "\u{200b}x"] {
        assert_eq!(trim(s), s.trim());
    }
}

#[test]
fn splits_around_the_first_delimiter() {
    for s in ["", "a", " ", "a b", "a b c", "ä ö"] {
        assert_eq!(split_once(s, ' '), s.split_once(' '));
    }
}

#[test]
fn compares_texts() {
    assert!(same_text("", ""));
    assert!(same_text("äb", "äb"));
    assert!(!same_text("ab", "abc"));
    assert!(!same_text("ab", "aB"));
    assert!(eq_ignore_case("BeArEr", "bearer"));
    assert!(!eq_ignore_case("Ä", "ä"));
    assert!(!eq_ignore_case("bearer ", "bearer"));
}

#[test]
fn numbers_read_as_the_standard_library_reads_them() {
    for s in [
        "", "+", "-", "0", "+0", "-0", "007", "8787", "+9000", "++1", "1 ", " 1", "12a", "1_000",
        "18446744073709551615", "18446744073709551616", "99999999999999999999999", "٣",
        "000000000000000000000000000001",
    ] {
        assert_eq!(number(s, u64::MAX), s.parse::<u64>().ok(), "{s}");
        assert_eq!(
            number(s, u16::MAX as u64),
            s.parse::<u16>().ok().map(u64::from),
            "{s}"
        );
    }
}

#[test]
fn small_bounds_are_respected() {
    assert_eq!(number("5", 5), Some(5));
    assert_eq!(number("6", 5), None);
    assert_eq!(number("0", 0), Some(0));
    assert_eq!(number("10", 9), None);
}

#[test]
fn hexadecimal_round_trips() {
    let bytes: Vec<u8> = (0..=255).collect();
    let text = to_hex(&bytes);
    assert_eq!(text.len(), 512);
    assert!(text.starts_with("000102"));
    assert!(text.ends_with("fdfeff"));
    assert_eq!(parse_hex(&characters(&text), false), Some(bytes.clone()));
    assert_eq!(
        parse_hex(&characters(&text.to_uppercase()), true),
        Some(bytes)
    );
    assert_eq!(parse_hex(&characters("AB"), false), None);
    assert_eq!(parse_hex(&characters("abc"), true), None);
    assert_eq!(parse_hex(&characters("zz"), true), None);
    assert_eq!(parse_hex(&characters(""), true), Some(Vec::new()));
}

#[test]
fn thirty_two_bytes_exactly() {
    assert_eq!(parse_hex_32(&"0f".repeat(32)), Some([0x0f; 32]));
    assert_eq!(parse_hex_32(&"0f".repeat(31)), None);
    assert_eq!(parse_hex_32(&"0f".repeat(33)), None);
    assert_eq!(parse_hex_32(&"0F".repeat(32)), None);
    assert_eq!(parse_hex_32(&"ä".repeat(32)), None);
}
