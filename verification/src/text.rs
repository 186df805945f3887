//! Character-level building blocks: trimming, splitting, decimal and hexadecimal notation.

use vstd::prelude::*;
use vstd::string::*;

verus! {

/// Whether `c` has the Unicode `White_Space` property.
pub open spec fn is_white_space(c: char) -> bool {
    ||| '\u{9}' <= c <= '\u{d}'
    ||| c == '\u{20}'
    ||| c == '\u{85}'
    ||| c == '\u{a0}'
    ||| c == '\u{1680}'
    ||| '\u{2000}' <= c <= '\u{200a}'
    ||| c == '\u{2028}'
    ||| c == '\u{2029}'
    ||| c == '\u{202f}'
    ||| c == '\u{205f}'
    ||| c == '\u{3000}'
}

/// `s` without its leading white space.
pub open spec fn trimmed_start(s: Seq<char>) -> Seq<char>
    decreases s.len(),
{
    if s.len() > 0 && is_white_space(s[0]) {
        trimmed_start(s.drop_first())
    } else {
        s
    }
}

/// `s` without its trailing white space.
pub open spec fn trimmed_end(s: Seq<char>) -> Seq<char>
    decreases s.len(),
{
    if s.len() > 0 && is_white_space(s.last()) {
        trimmed_end(s.drop_last())
    } else {
        s
    }
}

/// `s` without leading and trailing white space.
pub open spec fn trimmed(s: Seq<char>) -> Seq<char> {
    trimmed_end(trimmed_start(s))
}

/// Exactly the code points with the `White_Space` property.
pub fn white_space(c: char) -> (r: bool)
    ensures
        r == is_white_space(c),
{
    ('\u{9}' <= c && c <= '\u{d}') || c == '\u{20}' || c == '\u{85}' || c == '\u{a0}' || c
        == '\u{1680}' || ('\u{2000}' <= c && c <= '\u{200a}') || c == '\u{2028}' || c == '\u{2029}'
        || c == '\u{202f}' || c == '\u{205f}' || c == '\u{3000}'
}

/// The characters of `s`, in order.
pub fn characters(s: &str) -> (r: Vec<char>)
    ensures
        r@ == s@,
{
    let mut out: Vec<char> = Vec::new();
    for c in it: s.chars()
        invariant
            out@ == it.seq().take(it.index()),
            it.seq() == s@,
    {
        out.push(c);
    }
    out
}

/// Skipping the first `i` characters, all white space, does not change what trimming leaves.
proof fn lemma_trimmed_start_skip(s: Seq<char>, i: int)
    requires
        0 <= i <= s.len(),
        forall|k: int| 0 <= k < i ==> is_white_space(#[trigger] s[k]),
    ensures
        trimmed_start(s) == trimmed_start(s.skip(i)),
    decreases i,
{
    if i == 0 {
        assert(s.skip(0) =~= s);
    } else {
        lemma_trimmed_start_skip(s.drop_first(), i - 1);
        assert(s.drop_first().skip(i - 1) =~= s.skip(i));
    }
}

/// Cutting the last `n` characters, all white space, does not change what trimming leaves.
proof fn lemma_trimmed_end_cut(s: Seq<char>, n: int)
    requires
        0 <= n <= s.len(),
        forall|k: int| s.len() - n <= k < s.len() ==> is_white_space(#[trigger] s[k]),
    ensures
        trimmed_end(s) == trimmed_end(s.take(s.len() - n)),
    decreases n,
{
    if n == 0 {
        assert(s.take(s.len() as int) =~= s);
    } else {
        lemma_trimmed_end_cut(s.drop_last(), n - 1);
        assert(s.drop_last().take(s.len() - n) =~= s.take(s.len() - n));
    }
}

/// What is left after trimming the start does not start with white space.
proof fn lemma_trimmed_start_edge(s: Seq<char>)
    ensures
        trimmed_start(s).len() > 0 ==> !is_white_space(trimmed_start(s)[0]),
    decreases s.len(),
{
    if s.len() > 0 && is_white_space(s[0]) {
        lemma_trimmed_start_edge(s.drop_first());
    }
}

/// What is left after trimming the end does not end with white space, and starts as before.
proof fn lemma_trimmed_end_edge(s: Seq<char>)
    ensures
        trimmed_end(s).len() <= s.len(),
        trimmed_end(s).len() > 0 ==> !is_white_space(trimmed_end(s).last()) && trimmed_end(s)[0]
            == s[0],
    decreases s.len(),
{
    if s.len() > 0 && is_white_space(s.last()) {
        lemma_trimmed_end_edge(s.drop_last());
    }
}

/// Trimming leaves no white space at either end, and trimming again changes nothing.
pub proof fn lemma_trimmed(s: Seq<char>)
    ensures
        trimmed(s).len() > 0 ==> !is_white_space(trimmed(s)[0]) && !is_white_space(
            trimmed(s).last(),
        ),
        trimmed(trimmed(s)) == trimmed(s),
{
    lemma_trimmed_start_edge(s);
    lemma_trimmed_end_edge(trimmed_start(s));
}

/// `s` with leading and trailing white space removed.
pub fn trim(s: &str) -> (r: &str)
    ensures
        r@ == trimmed(s@),
{
    let cs = characters(s);
    let mut start: usize = 0;
    while start < cs.len() && white_space(cs[start])
        invariant
            start <= cs.len(),
            forall|k: int| 0 <= k < start ==> is_white_space(#[trigger] cs[k]),
        decreases cs.len() - start,
    {
        start = start + 1;
    }
    let mut end: usize = cs.len();
    while start < end && white_space(cs[end - 1])
        invariant
            start <= end <= cs.len(),
            forall|k: int| end <= k < cs.len() ==> is_white_space(#[trigger] cs[k]),
        decreases end,
    {
        end = end - 1;
    }
    proof {
        lemma_trimmed_start_skip(s@, start as int);
        let rest = s@.skip(start as int);
        lemma_trimmed_end_cut(rest, cs.len() - end);
        assert(rest.take(end - start) =~= s@.subrange(start as int, end as int));
    }
    s.substring_char(start, end)
}

/// The position of the first `c` in `s`.
pub open spec fn first_position(s: Seq<char>, c: char) -> Option<int>
    decreases s.len(),
{
    if s.len() == 0 {
        None
    } else if s[0] == c {
        Some(0)
    } else {
        match first_position(s.drop_first(), c) {
            Some(i) => Some(i + 1),
            None => None,
        }
    }
}

/// What [`first_position`] says in terms of positions.
pub proof fn lemma_first_position(s: Seq<char>, c: char)
    ensures
        match first_position(s, c) {
            Some(i) => 0 <= i < s.len() && s[i] == c && forall|k: int|
                0 <= k < i ==> #[trigger] s[k] != c,
            None => forall|k: int| 0 <= k < s.len() ==> #[trigger] s[k] != c,
        },
    decreases s.len(),
{
    if s.len() > 0 {
        let rest = s.drop_first();
        lemma_first_position(rest, c);
        assert forall|k: int| 1 <= k < s.len() implies s[k] == rest[k - 1] by {}
    }
}

/// Splits `s` around its first `delimiter`; `None` where there is none.
pub fn split_once<'a>(s: &'a str, delimiter: char) -> (r: Option<(&'a str, &'a str)>)
    ensures
        match first_position(s@, delimiter) {
            Some(i) => r matches Some((head, tail)) && head@ == s@.take(i) && tail@ == s@.skip(i + 1),
            None => r is None,
        },
{
    let cs = characters(s);
    proof {
        lemma_first_position(s@, delimiter);
    }
    let mut i: usize = 0;
    while i < cs.len()
        invariant
            cs@ == s@,
            i <= cs.len(),
            forall|k: int| 0 <= k < i ==> #[trigger] s@[k] != delimiter,
        decreases cs.len() - i,
    {
        if cs[i] == delimiter {
            proof {
                lemma_first_position(s@, delimiter);
            }
            assert(first_position(s@, delimiter) == Some(i as int));
            assert(s@.subrange(0, i as int) =~= s@.take(i as int));
            assert(s@.subrange(i + 1, s@.len() as int) =~= s@.skip(i + 1));
            return Some((s.substring_char(0, i), s.substring_char(i + 1, cs.len())));
        }
        i = i + 1;
    }
    None
}

/// Whether two strings are the same.
pub fn same_text(a: &str, b: &str) -> (r: bool)
    ensures
        r == (a@ == b@),
{
    let x = characters(a);
    let y = characters(b);
    if x.len() != y.len() {
        return false;
    }
    let mut i: usize = 0;
    while i < x.len()
        invariant
            x@ == a@,
            y@ == b@,
            x.len() == y.len(),
            i <= x.len(),
            forall|k: int| 0 <= k < i ==> #[trigger] a@[k] == b@[k],
        decreases x.len() - i,
    {
        if x[i] != y[i] {
            assert(a@[i as int] != b@[i as int]);
            return false;
        }
        i = i + 1;
    }
    assert(a@ =~= b@);
    true
}

/// The view of an optional string slice.
pub open spec fn str_view(s: Option<&str>) -> Option<Seq<char>> {
    match s {
        Some(t) => Some(t@),
        None => None,
    }
}

/// The view of an optional string.
pub open spec fn string_view(s: Option<String>) -> Option<Seq<char>> {
    match s {
        Some(t) => Some(t@),
        None => None,
    }
}

/// `c` with an ASCII capital letter made small.
pub open spec fn ascii_lowered(c: char) -> char {
    if 'A' <= c <= 'Z' {
        ((c as u8) + 32) as char
    } else {
        c
    }
}

/// Whether `a` and `b` are the same but for the case of ASCII letters.
pub open spec fn equal_ignoring_case(a: Seq<char>, b: Seq<char>) -> bool {
    &&& a.len() == b.len()
    &&& forall|i: int| 0 <= i < a.len() ==> #[trigger] ascii_lowered(a[i]) == ascii_lowered(b[i])
}

fn lower(c: char) -> (r: char)
    ensures
        r == ascii_lowered(c),
{
    if 'A' <= c && c <= 'Z' {
        ((c as u8) + 32) as char
    } else {
        c
    }
}

/// Compares two strings without regard to the case of ASCII letters.
pub fn eq_ignore_case(a: &str, b: &str) -> (r: bool)
    ensures
        r == equal_ignoring_case(a@, b@),
{
    let x = characters(a);
    let y = characters(b);
    if x.len() != y.len() {
        return false;
    }
    let mut i: usize = 0;
    while i < x.len()
        invariant
            x@ == a@,
            y@ == b@,
            x.len() == y.len(),
            i <= x.len(),
            forall|k: int|
                0 <= k < i ==> #[trigger] ascii_lowered(a@[k]) == ascii_lowered(b@[k]),
        decreases x.len() - i,
    {
        if lower(x[i]) != lower(y[i]) {
            assert(ascii_lowered(a@[i as int]) != ascii_lowered(b@[i as int]));
            return false;
        }
        i = i + 1;
    }
    true
}

/// Whether `c` is an ASCII decimal digit.
pub open spec fn is_digit(c: char) -> bool {
    '0' <= c <= '9'
}

/// Whether `c` is an ASCII letter or digit.
pub open spec fn is_alphanumeric(c: char) -> bool {
    is_digit(c) || 'a' <= c <= 'z' || 'A' <= c <= 'Z'
}

/// Exactly the ASCII letters and digits.
pub fn alphanumeric(c: char) -> (r: bool)
    ensures
        r == is_alphanumeric(c),
{
    ('0' <= c && c <= '9') || ('a' <= c && c <= 'z') || ('A' <= c && c <= 'Z')
}

/// The number that a string of decimal digits denotes.
pub open spec fn digits_value(s: Seq<char>) -> nat
    decreases s.len(),
{
    if s.len() == 0 {
        0
    } else {
        10 * digits_value(s.drop_last()) + (s.last() as nat - '0' as nat) as nat
    }
}

/// The digits of a decimal notation: all of it but for one leading plus sign.
pub open spec fn unsigned_digits(s: Seq<char>) -> Seq<char> {
    if s.len() > 0 && s[0] == '+' {
        s.drop_first()
    } else {
        s
    }
}

/// The number no greater than `max` that `s` denotes in decimal notation: an optional plus sign
/// and one or more digits, nothing else.
pub open spec fn decimal(s: Seq<char>, max: nat) -> Option<nat> {
    let digits = unsigned_digits(s);
    if digits.len() > 0 && (forall|i: int| 0 <= i < digits.len() ==> is_digit(#[trigger] digits[i]))
        && digits_value(digits) <= max {
        Some(digits_value(digits))
    } else {
        None
    }
}

/// Further digits never make a number smaller.
proof fn lemma_digits_value_grows(s: Seq<char>, n: int)
    requires
        0 <= n <= s.len(),
        forall|i: int| 0 <= i < s.len() ==> is_digit(#[trigger] s[i]),
    ensures
        digits_value(s.take(n)) <= digits_value(s),
    decreases s.len() - n,
{
    if n < s.len() {
        lemma_digits_value_grows(s, n + 1);
        assert(s.take(n + 1).drop_last() =~= s.take(n));
    } else {
        assert(s.take(n) =~= s);
    }
}

/// Reads the characters of `cs` as a number no greater than `max`.
pub fn parse_decimal(cs: &Vec<char>, max: u64) -> (r: Option<u64>)
    ensures
        match decimal(cs@, max as nat) {
            Some(n) => r == Some(n as u64),
            None => r is None,
        },
{
    let first: usize = if cs.len() > 0 && cs[0] == '+' {
        1
    } else {
        0
    };
    let ghost digits = unsigned_digits(cs@);
    assert(digits =~= cs@.skip(first as int));
    if cs.len() == first {
        return None;
    }
    let mut value: u64 = 0;
    let mut i: usize = first;
    assert(digits.take(0) =~= Seq::<char>::empty());
    while i < cs.len()
        invariant
            first <= i <= cs.len(),
            digits == cs@.skip(first as int),
            digits == unsigned_digits(cs@),
            forall|k: int| 0 <= k < i - first ==> is_digit(#[trigger] digits[k]),
            value == digits_value(digits.take(i - first)),
            value <= max,
        decreases cs.len() - i,
    {
        let c = cs[i];
        assert(digits[i - first] == c);
        if !('0' <= c && c <= '9') {
            return None;
        }
        let d: u64 = (c as u64) - ('0' as u64);
        assert(digits.take(i - first + 1).drop_last() =~= digits.take(i - first));
        if d > max || value > max / 10 || 10 * value > max - d {
            proof {
                if forall|k: int| 0 <= k < digits.len() ==> is_digit(#[trigger] digits[k]) {
                    lemma_digits_value_grows(digits, i - first + 1);
                }
            }
            return None;
        }
        value = 10 * value + d;
        i = i + 1;
    }
    assert(digits.take(digits.len() as int) =~= digits);
    Some(value)
}

/// The lowercase hexadecimal digit for `n`.
pub open spec fn hex_digit(n: int) -> char {
    if n < 10 {
        ('0' as int + n) as char
    } else {
        ('a' as int + (n - 10)) as char
    }
}

/// The value of the hexadecimal digit `c`; capital letters count only where `capitals` is set.
pub open spec fn hex_value(c: char, capitals: bool) -> Option<int> {
    if '0' <= c <= '9' {
        Some(c as int - '0' as int)
    } else if 'a' <= c <= 'f' {
        Some(c as int - 'a' as int + 10)
    } else if capitals && 'A' <= c <= 'F' {
        Some(c as int - 'A' as int + 10)
    } else {
        None
    }
}

/// `bytes` in lowercase hexadecimal, two digits a byte.
pub open spec fn hex_text(bytes: Seq<u8>) -> Seq<char> {
    Seq::new(
        2 * bytes.len(),
        |i: int|
            if i % 2 == 0 {
                hex_digit(bytes[i / 2] as int / 16)
            } else {
                hex_digit(bytes[i / 2] as int % 16)
            },
    )
}

/// The bytes that `s` writes in hexadecimal: an even number of digits, nothing else.
pub open spec fn hex_bytes(s: Seq<char>, capitals: bool) -> Option<Seq<u8>> {
    if s.len() % 2 == 0 && (forall|i: int|
        0 <= i < s.len() ==> hex_value(#[trigger] s[i], capitals) is Some) {
        Some(
            Seq::new(
                s.len() / 2,
                |i: int|
                    (16 * hex_value(s[2 * i], capitals)->0 + hex_value(s[2 * i + 1], capitals)->0) as u8,
            ),
        )
    } else {
        None
    }
}

/// Appends `byte` to `out` as two lowercase hexadecimal digits.
pub fn push_hex(out: &mut String, byte: u8)
    ensures
        final(out)@ == old(out)@ + hex_text(seq![byte]),
{
    let digits = "0123456789abcdef";
    proof {
        reveal_strlit("0123456789abcdef");
    }
    let high: usize = (byte / 16) as usize;
    let low: usize = (byte % 16) as usize;
    assert(digits.is_ascii());
    out.append(digits.substring_ascii(high, high + 1));
    out.append(digits.substring_ascii(low, low + 1));
    assert(out@ =~= old(out)@ + hex_text(seq![byte]));
}

/// Writes `bytes` in lowercase hexadecimal.
pub fn to_hex(bytes: &[u8]) -> (r: String)
    ensures
        r@ == hex_text(bytes@),
{
    let mut out = String::new();
    let mut i: usize = 0;
    assert(hex_text(bytes@.take(0)) =~= Seq::<char>::empty());
    while i < bytes.len()
        invariant
            i <= bytes.len(),
            out@ == hex_text(bytes@.take(i as int)),
        decreases bytes.len() - i,
    {
        push_hex(&mut out, bytes[i]);
        assert(hex_text(bytes@.take(i as int)) + hex_text(seq![bytes@[i as int]]) =~= hex_text(
            bytes@.take(i + 1),
        ));
        i = i + 1;
    }
    assert(bytes@.take(bytes@.len() as int) =~= bytes@);
    out
}

fn digit_value(c: char, capitals: bool) -> (r: Option<u8>)
    ensures
        match hex_value(c, capitals) {
            Some(v) => r == Some(v as u8) && 0 <= v < 16,
            None => r is None,
        },
{
    if '0' <= c && c <= '9' {
        Some((c as u8) - ('0' as u8))
    } else if 'a' <= c && c <= 'f' {
        Some((c as u8) - ('a' as u8) + 10)
    } else if capitals && 'A' <= c && c <= 'F' {
        Some((c as u8) - ('A' as u8) + 10)
    } else {
        None
    }
}

/// Reads the characters of `cs` as hexadecimal bytes.
pub fn parse_hex(cs: &Vec<char>, capitals: bool) -> (r: Option<Vec<u8>>)
    ensures
        match hex_bytes(cs@, capitals) {
            Some(bytes) => r matches Some(v) && v@ == bytes,
            None => r is None,
        },
{
    if cs.len() % 2 != 0 {
        return None;
    }
    let mut out: Vec<u8> = Vec::new();
    let mut i: usize = 0;
    while i < cs.len()
        invariant
            i <= cs.len(),
            i % 2 == 0,
            cs.len() % 2 == 0,
            out.len() == i / 2,
            forall|k: int| 0 <= k < i ==> hex_value(#[trigger] cs@[k], capitals) is Some,
            forall|k: int|
                0 <= k < out.len() ==> #[trigger] out@[k] == (16 * hex_value(cs@[2 * k], capitals)->0
                    + hex_value(cs@[2 * k + 1], capitals)->0) as u8,
        decreases cs.len() - i,
    {
        let high = match digit_value(cs[i], capitals) {
            Some(v) => v,
            None => {
                assert(hex_value(cs@[i as int], capitals) is None);
                return None;
            },
        };
        let low = match digit_value(cs[i + 1], capitals) {
            Some(v) => v,
            None => {
                assert(hex_value(cs@[i + 1], capitals) is None);
                return None;
            },
        };
        assert(high < 16 && low < 16 ==> (high << 4) | low == 16 * high + low) by (bit_vector);
        out.push((high << 4) | low);
        i = i + 2;
    }
    assert(out@ =~= hex_bytes(cs@, capitals)->0);
    Some(out)
}

/// Reads exactly 32 bytes written as 64 lowercase hexadecimal digits.
pub fn parse_hex_32(s: &str) -> (r: Option<[u8; 32]>)
    ensures
        match hex_bytes(s@, false) {
            Some(bytes) => if bytes.len() == 32 {
                r matches Some(a) && a@ == bytes
            } else {
                r is None
            },
            None => r is None,
        },
{
    let cs = characters(s);
    if cs.len() != 64 {
        return None;
    }
    match parse_hex(&cs, false) {
        Some(bytes) => {
            let mut out: [u8; 32] = [0u8; 32];
            let mut i: usize = 0;
            while i < 32
                invariant
                    i <= 32,
                    bytes.len() == 32,
                    forall|k: int| 0 <= k < i ==> #[trigger] out@[k] == bytes@[k],
                decreases 32 - i,
            {
                out[i] = bytes[i];
                i = i + 1;
            }
            assert(out@ =~= bytes@);
            Some(out)
        },
        None => None,
    }
}

/// Reading hexadecimal text gives back the bytes that were written.
pub proof fn lemma_hex_reads_back(bytes: Seq<u8>, capitals: bool)
    ensures
        hex_bytes(hex_text(bytes), capitals) == Some(bytes),
{
    let s = hex_text(bytes);
    assert forall|i: int| 0 <= i < s.len() implies hex_value(#[trigger] s[i], capitals) is Some by {}
    assert(hex_bytes(s, capitals)->0 =~= bytes);
}

/// Lowercase hexadecimal is canonical: the bytes that were read write the same text again.
pub proof fn lemma_hex_writes_back(s: Seq<char>)
    requires
        hex_bytes(s, false) is Some,
    ensures
        hex_text(hex_bytes(s, false)->0) == s,
{
    let bytes = hex_bytes(s, false)->0;
    assert forall|i: int| 0 <= i < s.len() implies hex_text(bytes)[i] == s[i] by {
        let k = i / 2;
        assert(hex_value(s[2 * k], false) is Some);
        assert(hex_value(s[2 * k + 1], false) is Some);
        let hi = hex_value(s[2 * k], false)->0;
        let lo = hex_value(s[2 * k + 1], false)->0;
        assert(bytes[k] == 16 * hi + lo);
        assert(bytes[k] as int / 16 == hi);
        assert(bytes[k] as int % 16 == lo);
        assert(i == 2 * k || i == 2 * k + 1);
    }
    assert(hex_text(bytes) =~= s);
}

/// Law: white space is what Unicode calls so: the code points 9 to 13, 32, 133, 160, 5760, 8192 to
/// 8202, 8232, 8233, 8239, 8287 and 12288, and no other.
pub proof fn law_white_space_is_unicode(c: char)
    ensures
        is_white_space(c) <==> {
            let n = c as int;
            ||| 9 <= n <= 13
            ||| n == 32
            ||| n == 133
            ||| n == 160
            ||| n == 5760
            ||| 8192 <= n <= 8202
            ||| n == 8232
            ||| n == 8233
            ||| n == 8239
            ||| n == 8287
            ||| n == 12288
        },
{
}

/// What is left at the front is a suffix, and only white space went.
proof fn lemma_trimmed_start_is_suffix(s: Seq<char>) -> (i: int)
    ensures
        0 <= i <= s.len(),
        trimmed_start(s) == s.skip(i),
        forall|k: int| 0 <= k < i ==> is_white_space(#[trigger] s[k]),
    decreases s.len(),
{
    if s.len() > 0 && is_white_space(s[0]) {
        let rest = s.drop_first();
        let i = lemma_trimmed_start_is_suffix(rest);
        assert(rest.skip(i) =~= s.skip(i + 1));
        assert forall|k: int| 0 <= k < i + 1 implies is_white_space(#[trigger] s[k]) by {
            if k > 0 {
                assert(rest[k - 1] == s[k]);
            }
        }
        i + 1
    } else {
        assert(s.skip(0) =~= s);
        0
    }
}

/// What is left at the end is a prefix, and only white space went.
proof fn lemma_trimmed_end_is_prefix(s: Seq<char>) -> (j: int)
    ensures
        0 <= j <= s.len(),
        trimmed_end(s) == s.take(j),
        forall|k: int| j <= k < s.len() ==> is_white_space(#[trigger] s[k]),
    decreases s.len(),
{
    if s.len() > 0 && is_white_space(s.last()) {
        let rest = s.drop_last();
        let j = lemma_trimmed_end_is_prefix(rest);
        assert(rest.take(j) =~= s.take(j));
        assert forall|k: int| j <= k < s.len() implies is_white_space(#[trigger] s[k]) by {
            if k < rest.len() {
                assert(rest[k] == s[k]);
            }
        }
        j
    } else {
        assert(s.take(s.len() as int) =~= s);
        s.len() as int
    }
}

/// Whether `s` from `i` to `j` is `s` without the white space around it: only white space stands
/// before and after, and neither end is white space.
pub open spec fn is_core(s: Seq<char>, i: int, j: int) -> bool {
    &&& 0 <= i <= j <= s.len()
    &&& forall|k: int| 0 <= k < i ==> is_white_space(#[trigger] s[k])
    &&& forall|k: int| j <= k < s.len() ==> is_white_space(#[trigger] s[k])
    &&& i < j ==> !is_white_space(s[i]) && !is_white_space(s[j - 1])
}

/// Law: trimming leaves a contiguous part of the text, and takes white space away at its ends only.
pub proof fn law_trimming_takes_white_space_only(s: Seq<char>) -> (r: (int, int))
    ensures
        is_core(s, r.0, r.1),
        trimmed(s) == s.subrange(r.0, r.1),
{
    let i = lemma_trimmed_start_is_suffix(s);
    let rest = trimmed_start(s);
    let n = lemma_trimmed_end_is_prefix(rest);
    let j = i + n;
    lemma_trimmed(s);
    assert(rest.take(n) =~= s.subrange(i, j));
    assert forall|k: int| j <= k < s.len() implies is_white_space(#[trigger] s[k]) by {
        assert(rest[k - i] == s[k]);
    }
    if i < j {
        assert(trimmed(s)[0] == s[i]);
        assert(trimmed(s).last() == s[j - 1]);
    }
    (i, j)
}

/// Law: trimming takes all the white space that there is around a text.
pub proof fn law_trimming_takes_all_of_it(s: Seq<char>, i: int, j: int)
    requires
        is_core(s, i, j),
    ensures
        trimmed(s) == s.subrange(i, j),
{
    let (a, b) = law_trimming_takes_white_space_only(s);
    if i < j {
        assert(a <= i) by {
            if a > i {
                assert(is_white_space(s[i]));
            }
        }
        assert(b >= j) by {
            if b < j {
                assert(is_white_space(s[j - 1]));
            }
        }
        assert(a >= i) by {
            if a < i {
                assert(is_white_space(s[a]));
            }
        }
        assert(b <= j) by {
            if b > j {
                assert(is_white_space(s[b - 1]));
            }
        }
    } else {
        if a < b {
            assert(is_white_space(s[a]));
        }
        assert(s.subrange(a, b) =~= s.subrange(i, j));
    }
}

/// Law: comparing without regard to case compares character by character, and sees no difference but
/// between a capital ASCII letter and its small one, 32 code points on.
pub proof fn law_case_is_all_that_is_ignored(a: Seq<char>, b: Seq<char>)
    ensures
        equal_ignoring_case(a, b) <==> a.len() == b.len() && forall|i: int|
            0 <= i < a.len() ==> {
                ||| #[trigger] a[i] == b[i]
                ||| 'A' <= a[i] <= 'Z' && b[i] as int == a[i] as int + 32
                ||| 'A' <= b[i] <= 'Z' && a[i] as int == b[i] as int + 32
            },
{
    if equal_ignoring_case(a, b) {
        assert forall|i: int| 0 <= i < a.len() implies {
            ||| #[trigger] a[i] == b[i]
            ||| 'A' <= a[i] <= 'Z' && b[i] as int == a[i] as int + 32
            ||| 'A' <= b[i] <= 'Z' && a[i] as int == b[i] as int + 32
        } by {
            assert(ascii_lowered(a[i]) == ascii_lowered(b[i]));
        }
    }
}

/// Law: one digit reads as its value.
pub proof fn law_digit_reads_as_its_value(c: char, max: nat)
    requires
        '0' <= c <= '9',
    ensures
        decimal(seq![c], max) == if c as int - 48 <= max {
            Some((c as int - 48) as nat)
        } else {
            None::<nat>
        },
{
    let s = seq![c];
    assert(s.drop_last() =~= Seq::<char>::empty());
    reveal_with_fuel(digits_value, 2);
    assert(unsigned_digits(s) == s);
    assert(s.last() == c);
}

/// Law: a further digit makes ten times the number, and the digit more.
pub proof fn law_further_digit_counts_ten_times(s: Seq<char>, n: nat, enough: nat, c: char, max: nat)
    requires
        decimal(s, enough) == Some(n),
        '0' <= c <= '9',
    ensures
        decimal(s.push(c), max) == if 10 * n + (c as int - 48) <= max {
            Some((10 * n + (c as int - 48)) as nat)
        } else {
            None::<nat>
        },
{
    let digits = unsigned_digits(s);
    let more = unsigned_digits(s.push(c));
    assert(more =~= digits.push(c));
    assert(more.drop_last() =~= digits);
    assert forall|i: int| 0 <= i < more.len() implies is_digit(#[trigger] more[i]) by {
        if i < digits.len() {
            assert(more[i] == digits[i]);
        }
    }
}

/// Law: one plus sign in front does not count.
pub proof fn law_plus_sign_does_not_count(s: Seq<char>, max: nat)
    requires
        s.len() > 0,
        s[0] != '+',
    ensures
        decimal(seq!['+'] + s, max) == decimal(s, max),
{
    assert((seq!['+'] + s).drop_first() =~= s);
}

/// Law: nothing else reads as a number: no empty text, no lone sign, and no text with anything but
/// digits after the sign.
pub proof fn law_only_digits_read_as_a_number(s: Seq<char>, max: nat, i: int)
    requires
        s.len() == 0 || s == seq!['+'] || (0 <= i < s.len() && !('0' <= s[i] <= '9') && (i > 0
            || s[i] != '+')),
    ensures
        decimal(s, max) is None,
{
    let digits = unsigned_digits(s);
    if 0 <= i < s.len() && !('0' <= s[i] <= '9') && (i > 0 || s[i] != '+') {
        if s[0] == '+' {
            assert(digits[i - 1] == s[i]);
        } else {
            assert(digits[i] == s[i]);
        }
    }
}

/// Law: each byte is written as two digits from `0` to `9` and `a` to `f`, the sixteens first.
pub proof fn law_hex_writes_sixteens_then_ones(bytes: Seq<u8>, i: int)
    requires
        0 <= i < bytes.len(),
    ensures
        hex_text(bytes).len() == 2 * bytes.len(),
        ({
            let high = hex_text(bytes)[2 * i] as int;
            let low = hex_text(bytes)[2 * i + 1] as int;
            let value = |c: int|
                if c <= 57 {
                    c - 48
                } else {
                    c - 87
                };
            &&& 48 <= high <= 57 || 97 <= high <= 102
            &&& 48 <= low <= 57 || 97 <= low <= 102
            &&& bytes[i] == 16 * value(high) + value(low)
        }),
{
}

/// Law: a text reads as bytes exactly when it is an even number of hexadecimal digits, capital ones
/// only where they count; and a byte is sixteen times the first of its digits, and the second.
pub proof fn law_hex_reads_sixteens_then_ones(s: Seq<char>, capitals: bool, i: int)
    ensures
        hex_bytes(s, capitals) is Some <==> s.len() % 2 == 0 && forall|k: int|
            0 <= k < s.len() ==> ('0' <= #[trigger] s[k] <= '9' || 'a' <= s[k] <= 'f' || (capitals
                && 'A' <= s[k] <= 'F')),
        hex_bytes(s, capitals) matches Some(bytes) ==> {
            let value = |c: int|
                if c <= 57 {
                    c - 48
                } else if c <= 70 {
                    c - 55
                } else {
                    c - 87
                };
            &&& 2 * bytes.len() == s.len()
            &&& 0 <= i < bytes.len() ==> bytes[i] == 16 * value(s[2 * i] as int) + value(
                s[2 * i + 1] as int,
            )
        },
{
    if hex_bytes(s, capitals) is Some {
        assert forall|k: int| 0 <= k < s.len() implies ('0' <= #[trigger] s[k] <= '9' || 'a' <= s[k]
            <= 'f' || (capitals && 'A' <= s[k] <= 'F')) by {
            assert(hex_value(s[k], capitals) is Some);
        }
        let bytes = hex_bytes(s, capitals)->0;
        if 0 <= i < bytes.len() {
            assert(hex_value(s[2 * i], capitals) is Some);
            assert(hex_value(s[2 * i + 1], capitals) is Some);
        }
    }
    if s.len() % 2 == 0 && (forall|k: int|
        0 <= k < s.len() ==> ('0' <= #[trigger] s[k] <= '9' || 'a' <= s[k] <= 'f' || (capitals
            && 'A' <= s[k] <= 'F'))) {
        assert forall|k: int| 0 <= k < s.len() implies hex_value(#[trigger] s[k], capitals) is Some by {}
    }
}

} // verus!
