//! Last-line protection against network addresses and stable identifiers in logs.

use crate::text::{alphanumeric, characters, is_alphanumeric, is_digit};
use vstd::prelude::*;
use vstd::relations::{sorted_by, total_ordering};
use vstd::seq_lib::{lemma_multiset_commutative, lemma_sorted_unique, to_multiset_build};
use vstd::string::*;

verus! {

/// What stands in a log line for what was taken out.
pub const REDACTED: &'static str = "[REDACTED]";

/// The shortest run of identifier characters that is taken for an identifier.
pub const MIN_IDENTIFIER_LEN: usize = 32;

/// The longest part of a run that is looked at for an address, unless it is the run itself. No IP
/// address in its usual notation, with a port, is longer.
pub const MAX_ADDRESS_LEN: usize = 64;

/// Whether `c` is an ASCII hexadecimal digit.
pub open spec fn is_hex(c: char) -> bool {
    is_digit(c) || 'a' <= c <= 'f' || 'A' <= c <= 'F'
}

/// A kind of character.
#[derive(Debug, Clone, Copy, PartialEq, Eq, Structural)]
pub enum Class {
    /// What network addresses are made of.
    Network,
    /// What identifiers and encoded secrets are made of.
    Opaque,
}

impl Class {
    /// Whether `c` is of this kind.
    pub open spec fn holds(self, c: char) -> bool {
        match self {
            Class::Network => is_hex(c) || c == '.' || c == ':',
            Class::Opaque => is_alphanumeric(c) || c == '_' || c == '-' || c == '+' || c == '/' || c
                == '=',
        }
    }

    fn test(self, c: char) -> (r: bool)
        ensures
            r == self.holds(c),
    {
        match self {
            Class::Network => hex(c) || c == '.' || c == ':',
            Class::Opaque => alphanumeric(c) || c == '_' || c == '-' || c == '+' || c == '/' || c
                == '=',
        }
    }
}

fn digit(c: char) -> (r: bool)
    ensures
        r == is_digit(c),
{
    '0' <= c && c <= '9'
}

fn hex(c: char) -> (r: bool)
    ensures
        r == is_hex(c),
{
    digit(c) || ('a' <= c && c <= 'f') || ('A' <= c && c <= 'F')
}

/// The characters from `start` up to `end`.
#[derive(Debug, Clone, Copy, PartialEq, Eq, Structural)]
pub struct Span {
    pub start: usize,
    pub end: usize,
}

impl Span {
    /// The characters of `s` in this span.
    pub open spec fn of(self, s: Seq<char>) -> Seq<char> {
        s.subrange(self.start as int, self.end as int)
    }

    /// Whether this span is a maximal run of characters of `class` in `s`.
    pub open spec fn is_run(self, s: Seq<char>, class: Class) -> bool {
        &&& self.start < self.end <= s.len()
        &&& forall|i: int| self.start <= i < self.end ==> class.holds(#[trigger] s[i])
        &&& self.start > 0 ==> !class.holds(s[self.start - 1])
        &&& self.end < s.len() ==> !class.holds(s[self.end as int])
    }
}

/// Whether `spans` are the maximal runs of `class` in `s`, from left to right.
pub open spec fn are_runs(spans: Seq<Span>, s: Seq<char>, class: Class) -> bool {
    &&& forall|i: int| 0 <= i < spans.len() ==> (#[trigger] spans[i]).is_run(s, class)
    &&& forall|i: int, j: int|
        0 <= i < j < spans.len() ==> (#[trigger] spans[i]).end < (#[trigger] spans[j]).start
    &&& forall|p: int|
        0 <= p < s.len() && class.holds(#[trigger] s[p]) ==> exists|i: int|
            0 <= i < spans.len() && (#[trigger] spans[i]).start <= p < spans[i].end
}

/// The maximal runs of `class` in `s`, from left to right.
pub open spec fn runs(s: Seq<char>, class: Class) -> Seq<Span> {
    choose|spans: Seq<Span>| are_runs(spans, s, class)
}

/// A run that shares a character with one of `b` is among `b`.
proof fn lemma_run_is_among(span: Span, b: Seq<Span>, s: Seq<char>, class: Class) -> (k: int)
    requires
        span.is_run(s, class),
        are_runs(b, s, class),
    ensures
        0 <= k < b.len(),
        b[k] == span,
{
    let p = span.start as int;
    assert(class.holds(s[p]));
    let k = choose|k: int| 0 <= k < b.len() && (#[trigger] b[k]).start <= p < b[k].end;
    let other = b[k];
    assert(other.is_run(s, class));
    if other.start < span.start {
        assert(class.holds(s[span.start - 1]));
    }
    if other.end < span.end {
        assert(class.holds(s[other.end as int]));
    }
    if span.end < other.end {
        assert(class.holds(s[span.end as int]));
    }
    k
}

/// There is only one way to list the maximal runs from left to right.
pub proof fn lemma_runs_are_unique(a: Seq<Span>, b: Seq<Span>, s: Seq<char>, class: Class, n: int)
    requires
        are_runs(a, s, class),
        are_runs(b, s, class),
        0 <= n <= a.len(),
    ensures
        n <= b.len(),
        a.take(n) == b.take(n),
        n == a.len() ==> a == b,
    decreases n,
{
    if n > 0 {
        let i = n - 1;
        lemma_runs_are_unique(a, b, s, class, i);
        assert forall|m: int| 0 <= m < i implies a[m] == b[m] by {
            assert(a.take(i)[m] == b.take(i)[m]);
        }
        let k = lemma_run_is_among(a[i], b, s, class);
        if k < i {
            assert(a[k] == b[k]);
        }
        let m = lemma_run_is_among(b[i], a, s, class);
        assert(a[i] == b[i]);
        assert(a.take(n) =~= b.take(n));
    } else {
        assert(a.take(0) =~= b.take(0));
    }
    if n == a.len() && b.len() > n {
        let m = lemma_run_is_among(b[n], a, s, class);
        assert(a.take(n)[m] == b.take(n)[m]);
    }
    if n == a.len() {
        assert(a.take(n) =~= a);
        assert(b.take(n) =~= b);
    }
}

/// The maximal runs of `class` in `cs`, from left to right.
pub fn find_runs(cs: &Vec<char>, class: Class) -> (r: Vec<Span>)
    ensures
        r@ == runs(cs@, class),
        are_runs(r@, cs@, class),
{
    let mut out: Vec<Span> = Vec::new();
    let mut i: usize = 0;
    while i < cs.len()
        invariant
            i <= cs@.len(),
            i > 0 && i < cs@.len() ==> !class.holds(cs@[i - 1]) || !class.holds(cs@[i as int]),
            forall|k: int| 0 <= k < out@.len() ==> (#[trigger] out@[k]).is_run(cs@, class),
            forall|k: int| 0 <= k < out@.len() ==> (#[trigger] out@[k]).end <= i,
            forall|k: int, l: int|
                0 <= k < l < out@.len() ==> (#[trigger] out@[k]).end < (#[trigger] out@[l]).start,
            forall|p: int|
                0 <= p < i && class.holds(#[trigger] cs@[p]) ==> exists|k: int|
                    0 <= k < out@.len() && (#[trigger] out@[k]).start <= p < out@[k].end,
        decreases cs@.len() - i,
    {
        if class.test(cs[i]) {
            let start = i;
            while i < cs.len() && class.test(cs[i])
                invariant
                    start <= i <= cs@.len(),
                    forall|k: int| start <= k < i ==> class.holds(#[trigger] cs@[k]),
                decreases cs@.len() - i,
            {
                i = i + 1;
            }
            let ghost before = out@;
            let span = Span { start, end: i };
            assert(span.is_run(cs@, class));
            assert forall|k: int| 0 <= k < before.len() implies (#[trigger] before[k]).end < start by {
                if before[k].end == start {
                    assert(!class.holds(cs@[before[k].end as int]));
                }
            }
            out.push(span);
            assert forall|p: int| 0 <= p < i && class.holds(#[trigger] cs@[p]) implies exists|k: int|
                0 <= k < out@.len() && (#[trigger] out@[k]).start <= p < out@[k].end by {
                if p < start {
                    let k = choose|k: int|
                        0 <= k < before.len() && (#[trigger] before[k]).start <= p < before[k].end;
                    assert(out@[k] == before[k]);
                } else {
                    assert(out@[before.len() as int] == span);
                }
            }
        } else {
            i = i + 1;
        }
    }
    proof {
        assert(are_runs(out@, cs@, class));
        lemma_runs_are_unique(out@, runs(cs@, class), cs@, class, out@.len() as int);
    }
    out
}

/// Those of `spans` whose flag is set.
pub open spec fn chosen(spans: Seq<Span>, flags: Seq<bool>) -> Seq<Span>
    decreases spans.len(),
{
    if spans.len() == 0 {
        Seq::empty()
    } else if flags[spans.len() - 1] {
        chosen(spans.drop_last(), flags).push(spans.last())
    } else {
        chosen(spans.drop_last(), flags)
    }
}

fn choose_spans(spans: &Vec<Span>, flags: &Vec<bool>) -> (r: Vec<Span>)
    requires
        spans@.len() == flags@.len(),
    ensures
        r@ == chosen(spans@, flags@),
{
    let mut out: Vec<Span> = Vec::new();
    let mut i: usize = 0;
    assert(spans@.take(0) =~= Seq::<Span>::empty());
    while i < spans.len()
        invariant
            i <= spans@.len(),
            spans@.len() == flags@.len(),
            out@ == chosen(spans@.take(i as int), flags@),
        decreases spans@.len() - i,
    {
        assert(spans@.take(i + 1).drop_last() =~= spans@.take(i as int));
        if flags[i] {
            out.push(spans[i]);
        }
        i = i + 1;
    }
    assert(spans@.take(spans@.len() as int) =~= spans@);
    out
}

/// Whether a run of identifier characters is long enough and varied enough to be an identifier.
pub open spec fn looks_like_identifier(run: Seq<char>) -> bool {
    &&& run.len() >= MIN_IDENTIFIER_LEN
    &&& (exists|i: int| 0 <= i < run.len() && is_digit(#[trigger] run[i])) || (forall|i: int|
        0 <= i < run.len() ==> is_hex(#[trigger] run[i]))
}

fn identifier(cs: &Vec<char>, span: Span) -> (r: bool)
    requires
        span.start <= span.end <= cs@.len(),
    ensures
        r == looks_like_identifier(span.of(cs@)),
{
    let ghost run = span.of(cs@);
    let mut any_digit = false;
    let mut all_hex = true;
    let mut i: usize = span.start;
    while i < span.end
        invariant
            span.start <= i <= span.end <= cs@.len(),
            run == span.of(cs@),
            any_digit == exists|k: int| 0 <= k < i - span.start && is_digit(#[trigger] run[k]),
            all_hex == forall|k: int| 0 <= k < i - span.start ==> is_hex(#[trigger] run[k]),
        decreases span.end - i,
    {
        assert(run[i - span.start] == cs@[i as int]);
        if digit(cs[i]) {
            any_digit = true;
        }
        if !hex(cs[i]) {
            all_hex = false;
        }
        i = i + 1;
    }
    span.end - span.start >= MIN_IDENTIFIER_LEN && (any_digit || all_hex)
}

/// Which of the runs of identifier characters in `s` look like identifiers.
pub open spec fn identifier_flags(s: Seq<char>) -> Seq<bool> {
    let spans = runs(s, Class::Opaque);
    Seq::new(spans.len(), |i: int| looks_like_identifier(spans[i].of(s)))
}

/// The order of spans: by start, and the longer one first.
pub open spec fn not_after(x: Span, y: Span) -> bool {
    x.start < y.start || (x.start == y.start && x.end >= y.end)
}

/// `spans` in order.
pub open spec fn in_order(spans: Seq<Span>) -> Seq<Span> {
    spans.sort_by(|x: Span, y: Span| not_after(x, y))
}

/// Joins two lists of spans that are in order into one.
fn merge(a: &Vec<Span>, b: &Vec<Span>) -> (r: Vec<Span>)
    requires
        sorted_by(a@, |x: Span, y: Span| not_after(x, y)),
        sorted_by(b@, |x: Span, y: Span| not_after(x, y)),
    ensures
        r@ == in_order(a@ + b@),
{
    let ghost leq = |x: Span, y: Span| not_after(x, y);
    let mut out: Vec<Span> = Vec::new();
    let mut i: usize = 0;
    let mut j: usize = 0;
    proof {
        assert(a@.take(0) =~= Seq::<Span>::empty());
        assert(b@.take(0) =~= Seq::<Span>::empty());
        lemma_multiset_commutative(out@, out@);
        assert(out@ + out@ =~= out@);
        assert(out@.to_multiset() =~= a@.take(0).to_multiset().add(b@.take(0).to_multiset()));
    }
    while i < a.len() || j < b.len()
        invariant
            i <= a@.len(),
            j <= b@.len(),
            leq == (|x: Span, y: Span| not_after(x, y)),
            sorted_by(a@, leq),
            sorted_by(b@, leq),
            sorted_by(out@, leq),
            forall|k: int|
                0 <= k < out@.len() && i < a@.len() ==> not_after(
                    #[trigger] out@[k],
                    a@[i as int],
                ),
            forall|k: int|
                0 <= k < out@.len() && j < b@.len() ==> not_after(
                    #[trigger] out@[k],
                    b@[j as int],
                ),
            out@.to_multiset() == a@.take(i as int).to_multiset().add(
                b@.take(j as int).to_multiset(),
            ),
        decreases a@.len() - i + b@.len() - j,
    {
        let ghost before = out@;
        let from_a = j == b.len() || (i < a.len() && (a[i].start < b[j].start || (a[i].start
            == b[j].start && a[i].end >= b[j].end)));
        if from_a {
            let span = a[i];
            out.push(span);
            proof {
                to_multiset_build(before, span);
                to_multiset_build(a@.take(i as int), span);
                assert(a@.take(i + 1) =~= a@.take(i as int).push(span));
                assert(out@.to_multiset() =~= a@.take(i + 1).to_multiset().add(
                    b@.take(j as int).to_multiset(),
                ));
                assert(i + 1 < a@.len() ==> leq(a@[i as int], a@[i + 1]));
            }
            i = i + 1;
        } else {
            let span = b[j];
            out.push(span);
            proof {
                to_multiset_build(before, span);
                to_multiset_build(b@.take(j as int), span);
                assert(b@.take(j + 1) =~= b@.take(j as int).push(span));
                assert(out@.to_multiset() =~= a@.take(i as int).to_multiset().add(
                    b@.take(j + 1).to_multiset(),
                ));
                assert(j + 1 < b@.len() ==> leq(b@[j as int], b@[j + 1]));
            }
            j = j + 1;
        }
    }
    proof {
        assert(a@.take(a@.len() as int) =~= a@);
        assert(b@.take(b@.len() as int) =~= b@);
        lemma_multiset_commutative(a@, b@);
        lemma_not_after_is_total();
        (a@ + b@).lemma_sort_by_ensures(leq);
        lemma_sorted_unique(out@, in_order(a@ + b@), leq);
    }
    out
}

proof fn lemma_not_after_is_total()
    ensures
        total_ordering(|x: Span, y: Span| not_after(x, y)),
{
}

/// A stretch of a redacted line.
pub enum Piece {
    /// The characters from `from` up to `to`, as they were.
    Kept { from: int, to: int },
    /// Something was taken out here.
    Hidden,
}

/// How a line of `len` characters is cut up from `copied` on: what lies in `spans` is taken out,
/// the rest is kept. A span that reaches no further than what came before it adds nothing.
pub open spec fn pieces(spans: Seq<Span>, copied: int, len: int) -> Seq<Piece>
    decreases spans.len(),
{
    if spans.len() == 0 {
        seq![Piece::Kept { from: copied, to: len }]
    } else {
        let span = spans[0];
        if span.end <= copied {
            pieces(spans.drop_first(), copied, len)
        } else {
            let to = if span.start < copied {
                copied
            } else {
                span.start as int
            };
            seq![Piece::Kept { from: copied, to }, Piece::Hidden] + pieces(
                spans.drop_first(),
                span.end as int,
                len,
            )
        }
    }
}

/// The text of `pieces` of `s`.
pub open spec fn render(s: Seq<char>, pieces: Seq<Piece>) -> Seq<char>
    decreases pieces.len(),
{
    if pieces.len() == 0 {
        Seq::empty()
    } else {
        (match pieces[0] {
            Piece::Kept { from, to } => s.subrange(from, to),
            Piece::Hidden => REDACTED@,
        }) + render(s, pieces.drop_first())
    }
}

/// Whether `spans` lie within `s`, and none is empty.
pub open spec fn within(spans: Seq<Span>, s: Seq<char>) -> bool {
    forall|i: int| 0 <= i < spans.len() ==> (#[trigger] spans[i]).start < spans[i].end <= s.len()
}

/// What is taken out of `s`, in order: `addresses`, and whatever looks like an identifier.
pub open spec fn hidden_spans(s: Seq<char>, addresses: Seq<Span>) -> Seq<Span> {
    in_order(addresses + chosen(runs(s, Class::Opaque), identifier_flags(s)))
}

/// `s` without `addresses` and identifiers.
pub open spec fn redaction(s: Seq<char>, addresses: Seq<Span>) -> Seq<char> {
    render(s, pieces(hidden_spans(s, addresses), 0, s.len() as int))
}

/// Whether `x` and `y` stand in `spans` in this order, before position `n`.
spec fn stand_in_order(spans: Seq<Span>, x: Span, y: Span, n: int) -> bool {
    exists|p: int, q: int|
        0 <= p < q < n && #[trigger] spans[p] == x && #[trigger] spans[q] == y
}

/// [`chosen`] keeps the order of the list.
proof fn lemma_chosen_keeps_order(spans: Seq<Span>, flags: Seq<bool>, n: int)
    requires
        0 <= n <= spans.len(),
    ensures
        forall|i: int|
            0 <= i < chosen(spans.take(n), flags).len() ==> spans.take(n).contains(
                #[trigger] chosen(spans.take(n), flags)[i],
            ),
        forall|i: int, j: int|
            0 <= i < j < chosen(spans.take(n), flags).len() ==> stand_in_order(
                spans,
                #[trigger] chosen(spans.take(n), flags)[i],
                #[trigger] chosen(spans.take(n), flags)[j],
                n,
            ),
    decreases n,
{
    if n > 0 {
        lemma_chosen_keeps_order(spans, flags, n - 1);
        let before = chosen(spans.take(n - 1), flags);
        let out = chosen(spans.take(n), flags);
        assert(spans.take(n).drop_last() =~= spans.take(n - 1));
        assert(spans.take(n).last() == spans[n - 1]);
        assert forall|i: int| 0 <= i < out.len() implies spans.take(n).contains(
            #[trigger] out[i],
        ) by {
            if i < before.len() {
                let p = spans.take(n - 1).index_of(before[i]);
                assert(spans.take(n)[p] == out[i]);
            } else {
                assert(spans.take(n)[n - 1] == out[i]);
            }
        }
        assert forall|i: int, j: int| 0 <= i < j < out.len() implies stand_in_order(
            spans,
            #[trigger] out[i],
            #[trigger] out[j],
            n,
        ) by {
            if j < before.len() {
                assert(stand_in_order(spans, before[i], before[j], n - 1));
                let (p, q) = choose|p: int, q: int|
                    0 <= p < q < n - 1 && #[trigger] spans[p] == before[i] && #[trigger] spans[q]
                        == before[j];
                assert(spans[p] == out[i] && spans[q] == out[j]);
            } else {
                let p = spans.take(n - 1).index_of(before[i]);
                assert(spans[p] == out[i] && spans[n - 1] == out[j]);
            }
        }
    }
}

/// What [`chosen`] leaves of a list of runs is in order, and is made of those runs.
proof fn lemma_chosen(spans: Seq<Span>, flags: Seq<bool>, s: Seq<char>, class: Class)
    requires
        are_runs(spans, s, class),
    ensures
        sorted_by(chosen(spans, flags), |x: Span, y: Span| not_after(x, y)),
        forall|x: Span| #[trigger]
            chosen(spans, flags).contains(x) ==> spans.contains(x) && x.is_run(s, class),
{
    lemma_chosen_keeps_order(spans, flags, spans.len() as int);
    assert(spans.take(spans.len() as int) =~= spans);
    let out = chosen(spans, flags);
    assert forall|x: Span| #[trigger] out.contains(x) implies spans.contains(x) && x.is_run(
        s,
        class,
    ) by {
        assert(spans.contains(out[out.index_of(x)]));
        assert(spans[spans.index_of(x)] == x);
    }
    assert forall|i: int, j: int| 0 <= i < j < out.len() implies not_after(
        #[trigger] out[i],
        #[trigger] out[j],
    ) by {
        assert(stand_in_order(spans, out[i], out[j], spans.len() as int));
        let (p, q) = choose|p: int, q: int|
            0 <= p < q < spans.len() && #[trigger] spans[p] == out[i] && #[trigger] spans[q]
                == out[j];
        assert(spans[p].end < spans[q].start);
        assert(spans[p].is_run(s, class));
    }
}

/// What is taken out is in order and within the line.
proof fn lemma_hidden_spans(s: Seq<char>, addresses: Seq<Span>)
    requires
        within(addresses, s),
        are_runs(runs(s, Class::Opaque), s, Class::Opaque),
    ensures
        sorted_by(hidden_spans(s, addresses), |x: Span, y: Span| not_after(x, y)),
        within(hidden_spans(s, addresses), s),
{
    let ids = chosen(runs(s, Class::Opaque), identifier_flags(s));
    lemma_chosen(runs(s, Class::Opaque), identifier_flags(s), s, Class::Opaque);
    lemma_not_after_is_total();
    (addresses + ids).lemma_sort_by_ensures(|x: Span, y: Span| not_after(x, y));
    let all = hidden_spans(s, addresses);
    assert forall|i: int| 0 <= i < all.len() implies (#[trigger] all[i]).start < all[i].end
        <= s.len() by {
        assert(all.contains(all[i]));
        assert((addresses + ids).contains(all[i]));
        let k = (addresses + ids).index_of(all[i]);
        if k < addresses.len() {
            assert(addresses[k] == all[i]);
        } else {
            assert(ids[k - addresses.len()] == all[i]);
            assert(ids.contains(all[i]));
        }
    }
}

fn identifiers(cs: &Vec<char>, spans: &Vec<Span>) -> (r: Vec<bool>)
    requires
        spans@ == runs(cs@, Class::Opaque),
        are_runs(spans@, cs@, Class::Opaque),
    ensures
        r@ == identifier_flags(cs@),
{
    let mut out: Vec<bool> = Vec::new();
    let mut i: usize = 0;
    while i < spans.len()
        invariant
            i <= spans@.len(),
            spans@ == runs(cs@, Class::Opaque),
            are_runs(spans@, cs@, Class::Opaque),
            out@ == identifier_flags(cs@).take(i as int),
        decreases spans@.len() - i,
    {
        assert(spans@[i as int].is_run(cs@, Class::Opaque));
        out.push(identifier(cs, spans[i]));
        assert(out@ =~= identifier_flags(cs@).take(i + 1));
        i = i + 1;
    }
    assert(out@ =~= identifier_flags(cs@));
    out
}

/// Takes `addresses` out of a line, and whatever looks like an identifier.
pub fn redact_given(input: &str, addresses: &Vec<Span>) -> (r: String)
    requires
        within(addresses@, input@),
        sorted_by(addresses@, |x: Span, y: Span| not_after(x, y)),
    ensures
        r@ == redaction(input@, addresses@),
{
    let cs = characters(input);
    let opaques = find_runs(&cs, Class::Opaque);
    let flags = identifiers(&cs, &opaques);
    let ids = choose_spans(&opaques, &flags);
    proof {
        lemma_chosen(opaques@, flags@, cs@, Class::Opaque);
        lemma_hidden_spans(cs@, addresses@);
    }
    let spans = merge(addresses, &ids);
    let mut out = String::new();
    let mut copied: usize = 0;
    let mut i: usize = 0;
    assert(spans@.skip(0) =~= spans@);
    while i < spans.len()
        invariant
            i <= spans@.len(),
            cs@ == input@,
            copied <= input@.len(),
            input@.len() == cs.len(),
            forall|k: int|
                0 <= k < spans@.len() ==> (#[trigger] spans@[k]).start < spans@[k].end <= input@.len(),
            redaction(input@, addresses@) == out@ + render(
                input@,
                pieces(spans@.skip(i as int), copied as int, input@.len() as int),
            ),
        decreases spans@.len() - i,
    {
        let span = spans[i];
        let ghost rest = spans@.skip(i as int);
        let ghost tail = pieces(rest.drop_first(), span.end as int, input@.len() as int);
        assert(rest.drop_first() =~= spans@.skip(i + 1));
        assert(rest[0] == span);
        if span.end > copied {
            let start: usize = if span.start < copied {
                copied
            } else {
                span.start
            };
            let ghost before = out@;
            out.append(input.substring_char(copied, start));
            out.append(REDACTED);
            proof {
                let both = seq![
                    Piece::Kept { from: copied as int, to: start as int },
                    Piece::Hidden,
                ] + tail;
                reveal_with_fuel(render, 3);
                assert(both.drop_first().drop_first() =~= tail);
                assert(both.drop_first()[0] == Piece::Hidden);
                assert(before + render(input@, both) =~= out@ + render(input@, tail));
            }
            copied = span.end;
        }
        i = i + 1;
    }
    out.append(input.substring_char(copied, cs.len()));
    proof {
        reveal_with_fuel(render, 2);
        assert(spans@.skip(spans@.len() as int) =~= Seq::<Span>::empty());
        let last = seq![Piece::Kept { from: copied as int, to: input@.len() as int }];
        assert(last.drop_first() =~= Seq::<Piece>::empty());
        assert(render(input@, last) =~= input@.subrange(copied as int, input@.len() as int));
    }
    out
}

/// Whether `c` stands between the parts of an address and also ends sentences and labels.
pub open spec fn is_punctuation(c: char) -> bool {
    c == '.' || c == ':'
}

/// Whether `s` holds nothing but punctuation from `from` up to `to`.
pub open spec fn all_punctuation(s: Seq<char>, from: int, to: int) -> bool {
    forall|k: int| from <= k < to ==> is_punctuation(#[trigger] s[k])
}

/// Whether `x` is `run`, or `run` without the punctuation at its two ends.
pub open spec fn is_stripped(s: Seq<char>, run: Span, x: Span) -> bool {
    &&& all_punctuation(s, run.start as int, x.start as int)
    &&& all_punctuation(s, x.end as int, run.end as int)
    &&& x == run || (!is_punctuation(s[x.start as int]) && !is_punctuation(s[x.end - 1]))
}

/// Whether a colon that is not part of a double one stands at `p` in `run`.
pub open spec fn is_single_colon(s: Seq<char>, run: Span, p: int) -> bool {
    &&& s[p] == ':'
    &&& p > run.start ==> s[p - 1] != ':'
    &&& p + 1 < run.end ==> s[p + 1] != ':'
}

/// Whether a part of `run` may start at `i`: with the run, behind a single colon, or behind a dot
/// where only punctuation is left before it.
pub open spec fn part_starts(s: Seq<char>, run: Span, i: int) -> bool {
    ||| i == run.start
    ||| is_single_colon(s, run, i - 1)
    ||| s[i - 1] == '.' && all_punctuation(s, run.start as int, i)
}

/// Whether a part of `run` may end at `j`: with the run, before a single colon, or before a dot where
/// only punctuation is left behind it.
pub open spec fn part_ends(s: Seq<char>, run: Span, j: int) -> bool {
    ||| j == run.end
    ||| is_single_colon(s, run, j)
    ||| s[j] == '.' && all_punctuation(s, j, run.end as int)
}

/// Whether `x` is a part of `run` that may be an address on its own: the run itself, the run without
/// the punctuation at its two ends, or a part no longer than an address that single colons, or the
/// dots at an end, set off. A double colon sets nothing off.
pub open spec fn may_be_address(s: Seq<char>, run: Span, x: Span) -> bool {
    &&& run.start <= x.start < x.end <= run.end
    &&& is_stripped(s, run, x) || (part_starts(s, run, x.start as int) && part_ends(
        s,
        run,
        x.end as int,
    ) && x.end - x.start <= MAX_ADDRESS_LEN)
}

/// Whether `x` is a part of a line that is looked at for an address.
pub open spec fn is_candidate(s: Seq<char>, x: Span) -> bool {
    exists|run: Span| #[trigger] run.is_run(s, Class::Network) && may_be_address(s, run, x)
}

/// Whether `answer` is what `test` may say of a string with the characters `text`.
pub open spec fn answers<F: Fn(&str) -> bool>(test: F, text: Seq<char>, answer: bool) -> bool {
    exists|candidate: &str|
        candidate@ == text && #[trigger] test.ensures((candidate,), answer)
}

/// Whether `addresses` are, in order and each once, those candidates of `s` that `test` takes for
/// addresses.
pub open spec fn are_found<F: Fn(&str) -> bool>(
    addresses: Seq<Span>,
    s: Seq<char>,
    test: F,
) -> bool {
    &&& sorted_by(addresses, |x: Span, y: Span| not_after(x, y))
    &&& addresses.no_duplicates()
    &&& forall|x: Span| #[trigger] addresses.contains(x) ==> is_candidate(s, x)
    &&& forall|x: Span| #[trigger]
        is_candidate(s, x) ==> answers(test, x.of(s), addresses.contains(x))
}

/// Two runs that share a position are the same.
proof fn lemma_same_run(a: Span, b: Span, s: Seq<char>, class: Class, p: int)
    requires
        a.is_run(s, class),
        b.is_run(s, class),
        a.start <= p < a.end,
        b.start <= p < b.end,
    ensures
        a == b,
{
    if a.start < b.start {
        assert(class.holds(s[b.start - 1]));
    }
    if b.start < a.start {
        assert(class.holds(s[a.start - 1]));
    }
    if a.end < b.end {
        assert(class.holds(s[a.end as int]));
    }
    if b.end < a.end {
        assert(class.holds(s[b.end as int]));
    }
}

fn punctuation(c: char) -> (r: bool)
    ensures
        r == is_punctuation(c),
{
    c == '.' || c == ':'
}

/// Where the punctuation at the start of `run` ends.
fn leading(cs: &Vec<char>, run: Span) -> (r: usize)
    requires
        run.start <= run.end <= cs@.len(),
    ensures
        run.start <= r <= run.end,
        forall|i: int| run.start <= i <= run.end ==> (#[trigger] all_punctuation(
            cs@,
            run.start as int,
            i,
        ) <==> i <= r),
{
    let mut r: usize = run.start;
    while r < run.end && punctuation(cs[r])
        invariant
            run.start <= r <= run.end <= cs@.len(),
            all_punctuation(cs@, run.start as int, r as int),
        decreases run.end - r,
    {
        r = r + 1;
    }
    assert forall|i: int| run.start <= i <= run.end implies (#[trigger] all_punctuation(
        cs@,
        run.start as int,
        i,
    ) <==> i <= r) by {
        if i > r {
            assert(!is_punctuation(cs@[r as int]));
        }
    }
    r
}

/// Where the punctuation at the end of `run` starts.
fn trailing(cs: &Vec<char>, run: Span) -> (r: usize)
    requires
        run.start <= run.end <= cs@.len(),
    ensures
        run.start <= r <= run.end,
        forall|j: int| run.start <= j <= run.end ==> (#[trigger] all_punctuation(
            cs@,
            j,
            run.end as int,
        ) <==> j >= r),
{
    let mut r: usize = run.end;
    while r > run.start && punctuation(cs[r - 1])
        invariant
            run.start <= r <= run.end <= cs@.len(),
            all_punctuation(cs@, r as int, run.end as int),
        decreases r,
    {
        r = r - 1;
    }
    assert forall|j: int| run.start <= j <= run.end implies (#[trigger] all_punctuation(
        cs@,
        j,
        run.end as int,
    ) <==> j >= r) by {
        if j < r {
            assert(!is_punctuation(cs@[r - 1]));
        }
    }
    r
}

/// Whether `x` comes before the span from `start` to `end` in the order of spans.
spec fn comes_before(x: Span, start: int, end: int) -> bool {
    x.start < start || (x.start == start && x.end > end)
}

/// Whether `found` are the candidates before the span from `start` to `end` that `test` takes for
/// addresses.
spec fn are_found_before<F: Fn(&str) -> bool>(
    found: Seq<Span>,
    s: Seq<char>,
    test: F,
    start: int,
    end: int,
) -> bool {
    &&& sorted_by(found, |x: Span, y: Span| not_after(x, y))
    &&& found.no_duplicates()
    &&& forall|x: Span| #[trigger]
        found.contains(x) ==> is_candidate(s, x) && comes_before(x, start, end)
    &&& forall|x: Span| #[trigger]
        is_candidate(s, x) && comes_before(x, start, end) ==> answers(
            test,
            x.of(s),
            found.contains(x),
        )
}

/// One more span has been looked at.
proof fn lemma_found_step<F: Fn(&str) -> bool>(
    found: Seq<Span>,
    s: Seq<char>,
    test: F,
    x: Span,
    is_one: bool,
)
    requires
        are_found_before(found, s, test, x.start as int, x.end as int),
        is_one ==> is_candidate(s, x),
        is_candidate(s, x) ==> answers(test, x.of(s), is_one),
    ensures
        are_found_before(
            if is_one {
                found.push(x)
            } else {
                found
            },
            s,
            test,
            x.start as int,
            x.end - 1,
        ),
{
    let out = if is_one {
        found.push(x)
    } else {
        found
    };
    let leq = |a: Span, b: Span| not_after(a, b);
    assert forall|i: int| 0 <= i < found.len() implies comes_before(
        #[trigger] found[i],
        x.start as int,
        x.end as int,
    ) by {
        assert(found.contains(found[i]));
    }
    assert forall|i: int, j: int| 0 <= i < j < out.len() implies #[trigger] leq(out[i], out[j]) by {
        if j < found.len() {
            assert(leq(found[i], found[j]));
        }
    }
    assert forall|y: Span| #[trigger] out.contains(y) <==> found.contains(y) || (is_one && y == x) by {
        if is_one {
            vstd::seq_lib::lemma_seq_contains_after_push(found, x, y);
        }
    }
    assert(!found.contains(x));
    assert(out.no_duplicates());
    assert forall|y: Span| #[trigger]
        is_candidate(s, y) && comes_before(y, x.start as int, x.end - 1) implies answers(
        test,
        y.of(s),
        out.contains(y),
    ) by {
        if y != x {
            assert(comes_before(y, x.start as int, x.end as int));
            assert(out.contains(y) == found.contains(y));
        } else {
            assert(out.contains(x) == is_one);
        }
    }
}

/// No candidate that starts at `start` ends after `lo` and no later than `hi`.
proof fn lemma_skip<F: Fn(&str) -> bool>(
    found: Seq<Span>,
    s: Seq<char>,
    test: F,
    start: int,
    hi: int,
    lo: int,
)
    requires
        are_found_before(found, s, test, start, hi),
        lo <= hi,
        forall|x: Span| x.start == start && lo < x.end <= hi ==> !(#[trigger] is_candidate(s, x)),
    ensures
        are_found_before(found, s, test, start, lo),
{
    assert forall|x: Span| #[trigger]
        is_candidate(s, x) && comes_before(x, start, lo) implies answers(
        test,
        x.of(s),
        found.contains(x),
    ) by {
        assert(comes_before(x, start, hi));
    }
}

/// Whether a colon that is not part of a double one stands at `p` in `run`.
fn single_colon(cs: &Vec<char>, run: Span, p: usize) -> (r: bool)
    requires
        run.start <= p < run.end <= cs@.len(),
    ensures
        r == is_single_colon(cs@, run, p as int),
{
    cs[p] == ':' && (p == run.start || cs[p - 1] != ':') && (p + 1 == run.end || cs[p + 1] != ':')
}

/// The addresses in a line, as `is_address` tells them.
fn find_addresses<F: Fn(&str) -> bool>(input: &str, is_address: F) -> (r: Vec<Span>)
    requires
        forall|candidate: &str| #[trigger] is_address.requires((candidate,)),
    ensures
        are_found(r@, input@, is_address),
        within(r@, input@),
{
    let cs = characters(input);
    let networks = find_runs(&cs, Class::Network);
    let ghost s = input@;
    let mut found: Vec<Span> = Vec::new();
    let mut k: usize = 0;
    let ghost mut from: int = 0;
    proof {
        assert(are_found_before(found@, s, is_address, 0, s.len() as int)) by {
            assert forall|x: Span| #[trigger]
                is_candidate(s, x) && comes_before(x, 0, s.len() as int) implies answers(
                is_address,
                x.of(s),
                found@.contains(x),
            ) by {
                let run = choose|run: Span| #[trigger]
                    run.is_run(s, Class::Network) && may_be_address(s, run, x);
            }
        }
    }
    while k < networks.len()
        invariant
            k <= networks@.len(),
            cs@ == s,
            s == input@,
            are_runs(networks@, s, Class::Network),
            from == if k == 0 {
                0
            } else {
                networks@[k - 1].end as int
            },
            are_found_before(found@, s, is_address, from, s.len() as int),
            forall|candidate: &str| #[trigger] is_address.requires((candidate,)),
        decreases networks@.len() - k,
    {
        let run = networks[k];
        assert(run.is_run(s, Class::Network));
        let lead = leading(&cs, run);
        let tail = trailing(&cs, run);
        let mut i: usize = run.start;
        proof {
            lemma_nothing_between(found@, s, is_address, networks@, k as int, from);
        }
        while i < run.end
            invariant
                k < networks@.len(),
                cs@ == s,
                s == input@,
                run == networks@[k as int],
                run.is_run(s, Class::Network),
                run.start <= i <= run.end <= s.len(),
                run.start <= lead <= run.end,
                run.start <= tail <= run.end,
                forall|m: int| run.start <= m <= run.end ==> (#[trigger] all_punctuation(
                    s,
                    run.start as int,
                    m,
                ) <==> m <= lead),
                forall|m: int| run.start <= m <= run.end ==> (#[trigger] all_punctuation(
                    s,
                    m,
                    run.end as int,
                ) <==> m >= tail),
                are_found_before(found@, s, is_address, i as int, run.end as int),
                forall|candidate: &str| #[trigger] is_address.requires((candidate,)),
            decreases run.end - i,
        {
            let starts = i == run.start || single_colon(&cs, run, i - 1) || (i <= lead && cs[i - 1]
                == '.');
            assert(all_punctuation(s, run.start as int, i as int) <==> i <= lead);
            assert(starts == part_starts(s, run, i as int));
            let mut j: usize = run.end;
            if !starts && i != lead {
                proof {
                    assert forall|x: Span| x.start == i && i < x.end <= run.end implies !(
                    #[trigger] is_candidate(s, x)) by {
                        if is_candidate(s, x) {
                            let other = choose|other: Span| #[trigger]
                                other.is_run(s, Class::Network) && may_be_address(s, other, x);
                            lemma_same_run(run, other, s, Class::Network, i as int);
                            assert(all_punctuation(s, run.start as int, lead as int));
                        }
                    }
                    lemma_skip(found@, s, is_address, i as int, run.end as int, i as int);
                }
                j = i;
            }
            while j > i
                invariant
                    cs@ == s,
                    s == input@,
                    run.is_run(s, Class::Network),
                    run.start <= i < run.end <= s.len(),
                    i <= j <= run.end,
                    run.start <= lead <= run.end,
                    run.start <= tail <= run.end,
                    starts == part_starts(s, run, i as int),
                    forall|m: int| run.start <= m <= run.end ==> (#[trigger] all_punctuation(
                        s,
                        run.start as int,
                        m,
                    ) <==> m <= lead),
                    forall|m: int| run.start <= m <= run.end ==> (#[trigger] all_punctuation(
                        s,
                        m,
                        run.end as int,
                    ) <==> m >= tail),
                    are_found_before(found@, s, is_address, i as int, j as int),
                    forall|candidate: &str| #[trigger] is_address.requires((candidate,)),
                decreases j,
            {
                let ghost x = Span { start: i, end: j };
                let ends = j == run.end || single_colon(&cs, run, j) || (j >= tail && cs[j] == '.');
                let stripped = i <= lead && j >= tail && ((i == run.start && j == run.end) || (
                !punctuation(cs[i]) && !punctuation(cs[j - 1])));
                let asked = stripped || (starts && ends && j - i <= MAX_ADDRESS_LEN);
                proof {
                    assert(all_punctuation(s, run.start as int, i as int) <==> i <= lead);
                    assert(all_punctuation(s, j as int, run.end as int) <==> j >= tail);
                    assert(ends == part_ends(s, run, j as int));
                    assert(stripped == is_stripped(s, run, x));
                    assert(asked == may_be_address(s, run, x));
                    if is_candidate(s, x) {
                        let other = choose|other: Span| #[trigger]
                            other.is_run(s, Class::Network) && may_be_address(s, other, x);
                        lemma_same_run(run, other, s, Class::Network, i as int);
                    }
                    assert(asked == is_candidate(s, x));
                }
                let mut is_one = false;
                if asked {
                    let candidate = input.substring_char(i, j);
                    is_one = is_address(candidate);
                    assert(candidate@ == x.of(s));
                    assert(answers(is_address, x.of(s), is_one));
                }
                proof {
                    lemma_found_step(found@, s, is_address, x, is_one);
                }
                if is_one {
                    found.push(Span { start: i, end: j });
                }
                // Between here and the longest part, only the stripped run is left to look at.
                let mut next: usize = j - 1;
                if next - i > MAX_ADDRESS_LEN {
                    next = if i <= lead && i < tail && tail < j && tail - i > MAX_ADDRESS_LEN {
                        tail
                    } else {
                        i + MAX_ADDRESS_LEN
                    };
                    proof {
                        assert forall|y: Span| y.start == i && next < y.end <= j - 1 implies !(
                        #[trigger] is_candidate(s, y)) by {
                            if is_candidate(s, y) {
                                let other = choose|other: Span| #[trigger]
                                    other.is_run(s, Class::Network) && may_be_address(s, other, y);
                                lemma_same_run(run, other, s, Class::Network, i as int);
                                assert(is_stripped(s, run, y));
                                assert(all_punctuation(s, tail as int, run.end as int));
                                assert(all_punctuation(s, y.end as int, run.end as int));
                                assert(all_punctuation(s, run.start as int, i as int));
                            }
                        }
                        lemma_skip(found@, s, is_address, i as int, j - 1, next as int);
                    }
                }
                j = next;
            }
            proof {
                lemma_next_start(found@, s, is_address, run, i as int);
            }
            i = i + 1;
        }
        proof {
            from = run.end as int;
            lemma_run_done(found@, s, is_address, run);
        }
        k = k + 1;
    }
    proof {
        assert forall|x: Span| #[trigger] is_candidate(s, x) implies comes_before(
            x,
            from,
            s.len() as int,
        ) && x.start < x.end <= s.len() by {
            let run = choose|run: Span| #[trigger]
                run.is_run(s, Class::Network) && may_be_address(s, run, x);
            let m = lemma_run_is_among(run, networks@, s, Class::Network);
            if m < networks@.len() - 1 {
                assert(networks@[m].end < networks@[networks@.len() - 1].start);
                assert(networks@[networks@.len() - 1].is_run(s, Class::Network));
            }
        }
        assert forall|i: int| 0 <= i < found@.len() implies (#[trigger] found@[i]).start
            < found@[i].end <= s.len() by {
            assert(found@.contains(found@[i]));
        }
    }
    found
}

/// No candidate starts between the end of one run and the start of the next, nor reaches past the
/// end of its run.
proof fn lemma_nothing_between<F: Fn(&str) -> bool>(
    found: Seq<Span>,
    s: Seq<char>,
    test: F,
    networks: Seq<Span>,
    k: int,
    from: int,
)
    requires
        are_runs(networks, s, Class::Network),
        0 <= k < networks.len(),
        from == if k == 0 {
            0
        } else {
            networks[k - 1].end as int
        },
        are_found_before(found, s, test, from, s.len() as int),
    ensures
        are_found_before(found, s, test, networks[k].start as int, networks[k].end as int),
{
    let run = networks[k];
    assert(run.is_run(s, Class::Network));
    assert forall|x: Span| #[trigger]
        is_candidate(s, x) && comes_before(x, run.start as int, run.end as int) implies answers(
        test,
        x.of(s),
        found.contains(x),
    ) by {
        let other = choose|other: Span| #[trigger]
            other.is_run(s, Class::Network) && may_be_address(s, other, x);
        let m = lemma_run_is_among(other, networks, s, Class::Network);
        if m > k {
            assert(networks[k].end < networks[m].start);
        } else if m < k {
            if m < k - 1 {
                assert(networks[m].end < networks[k - 1].start);
                assert(networks[k - 1].is_run(s, Class::Network));
            }
            assert(comes_before(x, from, s.len() as int));
        }
    }
    assert forall|x: Span| #[trigger] found.contains(x) implies is_candidate(s, x) && comes_before(
        x,
        run.start as int,
        run.end as int,
    ) by {
        if k > 0 {
            assert(networks[k - 1].end < networks[k].start);
        }
        let other = choose|other: Span| #[trigger]
            other.is_run(s, Class::Network) && may_be_address(s, other, x);
    }
}

/// Every candidate that starts at `i` has been looked at.
proof fn lemma_next_start<F: Fn(&str) -> bool>(
    found: Seq<Span>,
    s: Seq<char>,
    test: F,
    run: Span,
    i: int,
)
    requires
        run.is_run(s, Class::Network),
        run.start <= i < run.end,
        are_found_before(found, s, test, i, i),
    ensures
        are_found_before(found, s, test, i + 1, run.end as int),
{
    assert forall|x: Span| #[trigger]
        is_candidate(s, x) && comes_before(x, i + 1, run.end as int) implies answers(
        test,
        x.of(s),
        found.contains(x),
    ) by {
        let other = choose|other: Span| #[trigger]
            other.is_run(s, Class::Network) && may_be_address(s, other, x);
        if x.start == i + 1 && i + 1 < run.end {
            lemma_same_run(run, other, s, Class::Network, i + 1);
        }
        if x.start == i + 1 && i + 1 == run.end {
            lemma_run_ends(run, other, s);
        }
        assert(comes_before(x, i, i));
    }
}

/// A run that starts no later than where another ends does not reach past that.
proof fn lemma_run_ends(run: Span, other: Span, s: Seq<char>)
    requires
        run.is_run(s, Class::Network),
        other.is_run(s, Class::Network),
        other.start <= run.end,
    ensures
        other.end <= run.end,
{
    if other.end > run.end {
        assert(Class::Network.holds(s[run.end as int]));
    }
}

/// Every candidate of a run has been looked at.
proof fn lemma_run_done<F: Fn(&str) -> bool>(found: Seq<Span>, s: Seq<char>, test: F, run: Span)
    requires
        run.is_run(s, Class::Network),
        are_found_before(found, s, test, run.end as int, run.end as int),
    ensures
        are_found_before(found, s, test, run.end as int, s.len() as int),
{
    assert forall|x: Span| #[trigger] found.contains(x) implies is_candidate(s, x) && comes_before(
        x,
        run.end as int,
        s.len() as int,
    ) by {
        let other = choose|other: Span| #[trigger]
            other.is_run(s, Class::Network) && may_be_address(s, other, x);
        if x.start == run.end {
            lemma_run_ends(run, other, s);
        }
    }
}

/// Takes network addresses and long identity-like tokens out of a formatted log line.
/// `is_address` tells whether a text is an IP address, with or without a port. It is asked about
/// every run of address characters, and about the parts of a run that punctuation sets off, so that
/// an address is found at the end of a sentence and behind a label.
pub fn redact_log_line<F: Fn(&str) -> bool>(input: &str, is_address: F) -> (r: String)
    requires
        forall|candidate: &str| #[trigger] is_address.requires((candidate,)),
    ensures
        exists|addresses: Seq<Span>|
            are_found(addresses, input@, is_address) && r@ == #[trigger] redaction(
                input@,
                addresses,
            ),
{
    let addresses = find_addresses(input, is_address);
    let out = redact_given(input, &addresses);
    assert(out@ == redaction(input@, addresses@));
    out
}

/// Every line has a list of its maximal runs.
pub proof fn lemma_runs_exist(s: Seq<char>, class: Class)
    requires
        s.len() <= usize::MAX,
    ensures
        are_runs(runs(s, class), s, class),
{
    let spans = lemma_runs_of_prefix(s, class, s.len() as int);
    assert(s.take(s.len() as int) =~= s);
}

proof fn lemma_runs_of_prefix(s: Seq<char>, class: Class, n: int) -> (spans: Seq<Span>)
    requires
        0 <= n <= s.len() <= usize::MAX,
    ensures
        are_runs(spans, s.take(n), class),
    decreases n,
{
    if n == 0 {
        Seq::empty()
    } else {
        let t = s.take(n - 1);
        let u = s.take(n);
        let spans = lemma_runs_of_prefix(s, class, n - 1);
        assert forall|p: int| 0 <= p < n - 1 implies t[p] == #[trigger] u[p] by {}
        if !class.holds(u[n - 1]) {
            assert forall|i: int| 0 <= i < spans.len() implies (#[trigger] spans[i]).is_run(
                u,
                class,
            ) by {
                assert(spans[i].is_run(t, class));
            }
            assert forall|p: int| 0 <= p < n && class.holds(#[trigger] u[p]) implies exists|i: int|
                0 <= i < spans.len() && (#[trigger] spans[i]).start <= p < spans[i].end by {
                assert(class.holds(t[p]));
            }
            spans
        } else if spans.len() > 0 && spans.last().end == n - 1 {
            let grown = Span { start: spans.last().start, end: n as usize };
            let out = spans.drop_last().push(grown);
            assert forall|i: int| 0 <= i < out.len() implies (#[trigger] out[i]).is_run(u, class) by {
                assert(spans[i].is_run(t, class));
                if i < spans.len() - 1 {
                    assert(spans[i].end < spans[spans.len() - 1].start);
                }
            }
            assert forall|i: int, j: int| 0 <= i < j < out.len() implies (#[trigger] out[i]).end < (
            #[trigger] out[j]).start by {
                assert(spans[i].end < spans[j].start);
            }
            assert forall|p: int| 0 <= p < n && class.holds(#[trigger] u[p]) implies exists|i: int|
                0 <= i < out.len() && (#[trigger] out[i]).start <= p < out[i].end by {
                if p < n - 1 {
                    assert(class.holds(t[p]));
                    let i = choose|i: int|
                        0 <= i < spans.len() && (#[trigger] spans[i]).start <= p < spans[i].end;
                    assert(out[i].start <= p < out[i].end);
                } else {
                    assert(out[out.len() - 1] == grown);
                    assert(spans[spans.len() - 1].is_run(t, class));
                }
            }
            out
        } else {
            let single = Span { start: (n - 1) as usize, end: n as usize };
            let out = spans.push(single);
            assert forall|i: int| 0 <= i < spans.len() implies (#[trigger] spans[i]).end < n - 1 by {
                assert(spans[i].is_run(t, class));
                if i < spans.len() - 1 {
                    assert(spans[i].end < spans[spans.len() - 1].start);
                    assert(spans[spans.len() - 1].is_run(t, class));
                }
            }
            assert(n > 1 ==> !class.holds(u[n - 2])) by {
                if n > 1 && class.holds(t[n - 2]) {
                    let i = choose|i: int|
                        0 <= i < spans.len() && (#[trigger] spans[i]).start <= n - 2
                            < spans[i].end;
                    assert(spans[i].end < n - 1);
                }
            }
            assert forall|i: int| 0 <= i < out.len() implies (#[trigger] out[i]).is_run(u, class) by {
                if i < spans.len() {
                    assert(spans[i].is_run(t, class));
                }
            }
            assert forall|i: int, j: int| 0 <= i < j < out.len() implies (#[trigger] out[i]).end < (
            #[trigger] out[j]).start by {
                if j < spans.len() {
                    assert(spans[i].end < spans[j].start);
                }
            }
            assert forall|p: int| 0 <= p < n && class.holds(#[trigger] u[p]) implies exists|i: int|
                0 <= i < out.len() && (#[trigger] out[i]).start <= p < out[i].end by {
                if p < n - 1 {
                    assert(class.holds(t[p]));
                    let i = choose|i: int|
                        0 <= i < spans.len() && (#[trigger] spans[i]).start <= p < spans[i].end;
                    assert(out[i] == spans[i]);
                } else {
                    assert(out[out.len() - 1] == single);
                }
            }
            out
        }
    }
}

/// A flagged span is chosen.
proof fn lemma_flagged_is_chosen(spans: Seq<Span>, flags: Seq<bool>, i: int)
    requires
        0 <= i < spans.len(),
        flags[i],
    ensures
        chosen(spans, flags).contains(spans[i]),
    decreases spans.len(),
{
    let rest = chosen(spans.drop_last(), flags);
    let out = chosen(spans, flags);
    if i == spans.len() - 1 {
        assert(out[out.len() - 1] == spans[i]);
    } else {
        lemma_flagged_is_chosen(spans.drop_last(), flags, i);
        let k = rest.index_of(spans[i]);
        assert(out[k] == spans[i]);
    }
}

/// Nothing is chosen where no flag is set.
proof fn lemma_none_chosen(spans: Seq<Span>, flags: Seq<bool>)
    requires
        forall|i: int| 0 <= i < spans.len() ==> !(#[trigger] flags[i]),
    ensures
        chosen(spans, flags) == Seq::<Span>::empty(),
    decreases spans.len(),
{
    if spans.len() > 0 {
        lemma_none_chosen(spans.drop_last(), flags);
    }
}

/// Law: every run of address characters is looked at, and so is the run without the punctuation at
/// its two ends, as where an address ends a sentence.
pub proof fn law_runs_are_looked_at(s: Seq<char>, run: Span, x: Span)
    requires
        run.is_run(s, Class::Network),
        run.start <= x.start < x.end <= run.end,
        is_stripped(s, run, x),
    ensures
        is_candidate(s, run),
        is_candidate(s, x),
{
    assert(may_be_address(s, run, run));
    assert(may_be_address(s, run, x));
}

/// Law: a part no longer than an address that is set off, as behind a label's colon and before the
/// dot that ends a sentence, is looked at.
pub proof fn law_part_that_is_set_off_is_looked_at(s: Seq<char>, run: Span, x: Span)
    requires
        run.is_run(s, Class::Network),
        run.start <= x.start < x.end <= run.end,
        part_starts(s, run, x.start as int),
        part_ends(s, run, x.end as int),
        x.end - x.start <= MAX_ADDRESS_LEN,
    ensures
        is_candidate(s, x),
{
    assert(may_be_address(s, run, x));
}

/// Law: a double colon sets nothing off: what is looked at is the run, the run without the
/// punctuation at its two ends, or a part with no half of a double colon next to it.
pub proof fn law_double_colon_sets_nothing_off(s: Seq<char>, run: Span, x: Span)
    requires
        run.is_run(s, Class::Network),
        is_candidate(s, x),
        run.start <= x.start < run.end,
        !is_stripped(s, run, x),
    ensures
        x.start > run.start && s[x.start - 1] == ':' ==> is_single_colon(s, run, x.start - 1),
        x.end < run.end && s[x.end as int] == ':' ==> is_single_colon(s, run, x.end as int),
{
    let other = choose|other: Span| #[trigger]
        other.is_run(s, Class::Network) && may_be_address(s, other, x);
    lemma_same_run(run, other, s, Class::Network, x.start as int);
}

/// Law: every address, and every run that looks like an identifier, is taken out.
pub proof fn law_addresses_and_identifiers_are_hidden(
    s: Seq<char>,
    addresses: Seq<Span>,
    address: Span,
    i: int,
)
    ensures
        addresses.contains(address) ==> hidden_spans(s, addresses).contains(address),
        0 <= i < runs(s, Class::Opaque).len() && looks_like_identifier(
            runs(s, Class::Opaque)[i].of(s),
        ) ==> hidden_spans(s, addresses).contains(runs(s, Class::Opaque)[i]),
{
    let ids = chosen(runs(s, Class::Opaque), identifier_flags(s));
    let all = addresses + ids;
    lemma_not_after_is_total();
    all.lemma_sort_by_ensures(|x: Span, y: Span| not_after(x, y));
    let sorted = hidden_spans(s, addresses);
    assert forall|x: Span| all.contains(x) implies sorted.contains(x) by {
        all.to_multiset_ensures();
        sorted.to_multiset_ensures();
        assert(all.to_multiset().count(x) > 0);
        assert(sorted.to_multiset().count(x) > 0);
    }
    if addresses.contains(address) {
        assert(all[addresses.index_of(address)] == address);
    }
    if 0 <= i < runs(s, Class::Opaque).len() && looks_like_identifier(
        runs(s, Class::Opaque)[i].of(s),
    ) {
        lemma_flagged_is_chosen(runs(s, Class::Opaque), identifier_flags(s), i);
        let x = runs(s, Class::Opaque)[i];
        assert(all[addresses.len() + ids.index_of(x)] == x);
    }
}

/// Law: a part of the line that is looked at, and that the test cannot but take for an address, is
/// taken out.
pub proof fn law_found_address_is_hidden<F: Fn(&str) -> bool>(
    addresses: Seq<Span>,
    s: Seq<char>,
    test: F,
    x: Span,
)
    requires
        are_found(addresses, s, test),
        is_candidate(s, x),
        !answers(test, x.of(s), false),
    ensures
        within(addresses, s),
        hidden_spans(s, addresses).contains(x),
{
    assert forall|i: int| 0 <= i < addresses.len() implies (#[trigger] addresses[i]).start
        < addresses[i].end <= s.len() by {
        assert(addresses.contains(addresses[i]));
        let run = choose|run: Span| #[trigger]
            run.is_run(s, Class::Network) && may_be_address(s, run, addresses[i]);
    }
    law_addresses_and_identifiers_are_hidden(s, addresses, x, 0);
}

/// Law: no character of what is taken out survives: nothing that is kept of a line overlaps a
/// hidden span.
pub proof fn law_hidden_characters_do_not_survive(
    s: Seq<char>,
    addresses: Seq<Span>,
    span: Span,
    k: int,
)
    requires
        s.len() <= usize::MAX,
        within(addresses, s),
        hidden_spans(s, addresses).contains(span),
        0 <= k < pieces(hidden_spans(s, addresses), 0, s.len() as int).len(),
    ensures
        pieces(hidden_spans(s, addresses), 0, s.len() as int)[k] matches Piece::Kept { from, to }
            ==> 0 <= from <= to <= s.len() && (from == to || to <= span.start || span.end <= from),
{
    let spans = hidden_spans(s, addresses);
    lemma_runs_exist(s, Class::Opaque);
    lemma_hidden_spans(s, addresses);
    lemma_kept_pieces(spans, 0, s.len() as int, k);
    let i = spans.index_of(span);
    assert(spans[i] == span);
}

proof fn lemma_kept_pieces(spans: Seq<Span>, copied: int, len: int, k: int)
    requires
        0 <= copied <= len,
        sorted_by(spans, |x: Span, y: Span| not_after(x, y)),
        forall|i: int|
            0 <= i < spans.len() ==> (#[trigger] spans[i]).start < spans[i].end <= len,
        0 <= k < pieces(spans, copied, len).len(),
    ensures
        pieces(spans, copied, len)[k] matches Piece::Kept { from, to } ==> copied <= from <= to
            <= len && (from < to ==> forall|i: int|
            0 <= i < spans.len() ==> to <= (#[trigger] spans[i]).start || spans[i].end <= from),
    decreases spans.len(),
{
    if spans.len() > 0 {
        let leq = |x: Span, y: Span| not_after(x, y);
        let rest = spans.drop_first();
        let span = spans[0];
        assert forall|i: int, j: int| 0 <= i < j < rest.len() implies #[trigger] leq(
            rest[i],
            rest[j],
        ) by {
            assert(leq(spans[i + 1], spans[j + 1]));
        }
        assert forall|i: int| 0 < i < spans.len() implies span.start <= (#[trigger] spans[i]).start
            && spans[i] == rest[i - 1] by {
            assert(leq(spans[0], spans[i]));
        }
        if span.end <= copied {
            lemma_kept_pieces(rest, copied, len, k);
        } else if k >= 2 {
            lemma_kept_pieces(rest, span.end as int, len, k - 2);
            assert(pieces(spans, copied, len)[k] == pieces(rest, span.end as int, len)[k - 2]);
        }
    }
}

/// Law: an ordinary line passes unchanged: no address in it, and no run of identifier characters as
/// long as an identifier.
pub proof fn law_ordinary_line_is_unchanged(s: Seq<char>)
    requires
        forall|i: int|
            0 <= i < runs(s, Class::Opaque).len() ==> (#[trigger] runs(s, Class::Opaque)[i].of(
                s,
            )).len() < MIN_IDENTIFIER_LEN,
    ensures
        redaction(s, Seq::empty()) == s,
{
    let none = Seq::<Span>::empty();
    assert forall|i: int| 0 <= i < runs(s, Class::Opaque).len() implies !(#[trigger] identifier_flags(
        s,
    )[i]) by {
        assert(runs(s, Class::Opaque)[i].of(s).len() < MIN_IDENTIFIER_LEN);
    }
    lemma_none_chosen(runs(s, Class::Opaque), identifier_flags(s));
    let all = none + chosen(runs(s, Class::Opaque), identifier_flags(s));
    assert(all =~= none);
    lemma_not_after_is_total();
    all.lemma_sort_by_ensures(|x: Span, y: Span| not_after(x, y));
    let sorted = hidden_spans(s, none);
    all.to_multiset_ensures();
    sorted.to_multiset_ensures();
    assert(sorted.len() == 0);
    reveal_with_fuel(render, 2);
    let whole = seq![Piece::Kept { from: 0, to: s.len() as int }];
    assert(whole.drop_first() =~= Seq::<Piece>::empty());
    assert(render(s, whole) =~= s);
}

/// Law: a line shorter than an identifier, such as a short hexadecimal id, passes unchanged unless
/// it holds an address.
pub proof fn law_short_line_is_unchanged(s: Seq<char>)
    requires
        s.len() < MIN_IDENTIFIER_LEN,
    ensures
        redaction(s, Seq::empty()) == s,
{
    lemma_runs_exist(s, Class::Opaque);
    assert forall|i: int| 0 <= i < runs(s, Class::Opaque).len() implies (#[trigger] runs(
        s,
        Class::Opaque,
    )[i].of(s)).len() < MIN_IDENTIFIER_LEN by {
        assert(runs(s, Class::Opaque)[i].is_run(s, Class::Opaque));
    }
    law_ordinary_line_is_unchanged(s);
}

/// Whether `c` is an ASCII letter or digit, or one of `_ - + / =`.
pub open spec fn is_token_char(c: char) -> bool {
    ||| '0' <= c <= '9'
    ||| 'a' <= c <= 'z'
    ||| 'A' <= c <= 'Z'
    ||| c == '_'
    ||| c == '-'
    ||| c == '+'
    ||| c == '/'
    ||| c == '='
}

/// Whether `c` is an ASCII hexadecimal digit, a dot or a colon.
pub open spec fn is_address_char(c: char) -> bool {
    ||| '0' <= c <= '9'
    ||| 'a' <= c <= 'f'
    ||| 'A' <= c <= 'F'
    ||| c == '.'
    ||| c == ':'
}

/// Whether the characters from `a` up to `b` are all token characters, with none next to them.
pub open spec fn is_token(s: Seq<char>, a: int, b: int) -> bool {
    &&& 0 <= a < b <= s.len()
    &&& forall|i: int| a <= i < b ==> is_token_char(#[trigger] s[i])
    &&& a > 0 ==> !is_token_char(s[a - 1])
    &&& b < s.len() ==> !is_token_char(s[b])
}

/// Whether the characters from `a` up to `b` are all address characters, with none next to them.
pub open spec fn is_address_run(s: Seq<char>, a: int, b: int) -> bool {
    &&& 0 <= a < b <= s.len()
    &&& forall|i: int| a <= i < b ==> is_address_char(#[trigger] s[i])
    &&& a > 0 ==> !is_address_char(s[a - 1])
    &&& b < s.len() ==> !is_address_char(s[b])
}

/// Whether the characters from `a` up to `b` hold a decimal digit or are all hexadecimal digits.
pub open spec fn is_varied(s: Seq<char>, a: int, b: int) -> bool {
    ||| exists|i: int| a <= i < b && '0' <= #[trigger] s[i] <= '9'
    ||| forall|i: int|
        a <= i < b ==> ('0' <= #[trigger] s[i] <= '9' || 'a' <= s[i] <= 'f' || 'A' <= s[i] <= 'F')
}

/// A token is a run, and is among the runs.
proof fn lemma_token_is_a_run(s: Seq<char>, a: int, b: int) -> (i: int)
    requires
        s.len() <= usize::MAX,
        is_token(s, a, b),
    ensures
        0 <= i < runs(s, Class::Opaque).len(),
        runs(s, Class::Opaque)[i] == (Span { start: a as usize, end: b as usize }),
{
    let span = Span { start: a as usize, end: b as usize };
    assert(span.is_run(s, Class::Opaque));
    lemma_runs_exist(s, Class::Opaque);
    lemma_run_is_among(span, runs(s, Class::Opaque), s, Class::Opaque)
}

/// Law: however long it is, a token of 32 characters or more that holds a digit, or is all
/// hexadecimal, is taken out: no kept piece of the line holds a character of it.
pub proof fn law_long_tokens_do_not_survive(
    s: Seq<char>,
    addresses: Seq<Span>,
    a: int,
    b: int,
    k: int,
)
    requires
        s.len() <= usize::MAX,
        within(addresses, s),
        is_token(s, a, b),
        b - a >= 32,
        is_varied(s, a, b),
        0 <= k < pieces(hidden_spans(s, addresses), 0, s.len() as int).len(),
    ensures
        pieces(hidden_spans(s, addresses), 0, s.len() as int)[k] matches Piece::Kept { from, to }
            ==> from == to || to <= a || b <= from,
{
    let i = lemma_token_is_a_run(s, a, b);
    let span = runs(s, Class::Opaque)[i];
    let run = span.of(s);
    assert(looks_like_identifier(run)) by {
        if exists|p: int| a <= p < b && '0' <= #[trigger] s[p] <= '9' {
            let p = choose|p: int| a <= p < b && '0' <= #[trigger] s[p] <= '9';
            assert(is_digit(run[p - a]));
        } else {
            assert forall|q: int| 0 <= q < run.len() implies is_hex(#[trigger] run[q]) by {
                assert(run[q] == s[a + q]);
            }
        }
    }
    law_addresses_and_identifiers_are_hidden(s, addresses, span, i);
    law_hidden_characters_do_not_survive(s, addresses, span, k);
}

/// Law: nothing else is taken out: whatever is hidden is one of the addresses, or a token of 32
/// characters or more that holds a digit or is all hexadecimal.
pub proof fn law_nothing_else_is_hidden(s: Seq<char>, addresses: Seq<Span>, x: Span)
    requires
        s.len() <= usize::MAX,
        hidden_spans(s, addresses).contains(x),
    ensures
        addresses.contains(x) || (is_token(s, x.start as int, x.end as int) && x.end - x.start >= 32
            && is_varied(s, x.start as int, x.end as int)),
{
    let spans = runs(s, Class::Opaque);
    let ids = chosen(spans, identifier_flags(s));
    let all = addresses + ids;
    lemma_runs_exist(s, Class::Opaque);
    lemma_not_after_is_total();
    all.lemma_sort_by_ensures(|p: Span, q: Span| not_after(p, q));
    assert(all.contains(x));
    let k = all.index_of(x);
    if k < addresses.len() {
        assert(addresses[k] == x);
    } else {
        assert(ids[k - addresses.len()] == x);
        lemma_chosen(spans, identifier_flags(s), s, Class::Opaque);
        assert(ids.contains(x));
        lemma_chosen_is_flagged(spans, identifier_flags(s), x);
        let i = choose|i: int|
            0 <= i < spans.len() && #[trigger] spans[i] == x && identifier_flags(s)[i];
        let run = x.of(s);
        assert(looks_like_identifier(run));
        assert(x.is_run(s, Class::Opaque));
        assert(is_token(s, x.start as int, x.end as int));
        if exists|q: int| 0 <= q < run.len() && is_digit(#[trigger] run[q]) {
            let q = choose|q: int| 0 <= q < run.len() && is_digit(#[trigger] run[q]);
            assert('0' <= s[x.start + q] <= '9');
        } else {
            assert forall|p: int| x.start <= p < x.end implies ('0' <= #[trigger] s[p] <= '9'
                || 'a' <= s[p] <= 'f' || 'A' <= s[p] <= 'F') by {
                assert(is_hex(run[p - x.start]));
            }
        }
    }
}

/// What is chosen is flagged.
proof fn lemma_chosen_is_flagged(spans: Seq<Span>, flags: Seq<bool>, x: Span)
    requires
        chosen(spans, flags).contains(x),
    ensures
        exists|i: int| 0 <= i < spans.len() && #[trigger] spans[i] == x && flags[i],
    decreases spans.len(),
{
    let out = chosen(spans, flags);
    if spans.len() > 0 {
        let n = spans.len() - 1;
        let rest = chosen(spans.drop_last(), flags);
        if flags[n] && spans[n] == x {
        } else {
            let k = out.index_of(x);
            assert(rest[k] == x);
            lemma_chosen_is_flagged(spans.drop_last(), flags, x);
            let i = choose|i: int|
                0 <= i < spans.drop_last().len() && #[trigger] spans.drop_last()[i] == x
                    && flags[i];
            assert(spans[i] == x);
        }
    }
}

/// Law: every character that is not taken out is kept: it stands in a kept piece of the line.
pub proof fn law_the_rest_of_the_line_is_kept(s: Seq<char>, addresses: Seq<Span>, p: int)
    requires
        0 <= p < s.len(),
        forall|x: Span| #[trigger]
            hidden_spans(s, addresses).contains(x) ==> p < x.start || x.end <= p,
    ensures
        exists|k: int|
            0 <= k < pieces(hidden_spans(s, addresses), 0, s.len() as int).len() && ((
            #[trigger] pieces(hidden_spans(s, addresses), 0, s.len() as int)[k]) matches Piece::Kept {
                from,
                to,
            } && from <= p < to),
{
    let spans = hidden_spans(s, addresses);
    assert forall|i: int| 0 <= i < spans.len() implies p < (#[trigger] spans[i]).start
        || spans[i].end <= p by {
        assert(spans.contains(spans[i]));
    }
    let k = lemma_kept_at(spans, 0, s.len() as int, p);
}

proof fn lemma_kept_at(spans: Seq<Span>, copied: int, len: int, p: int) -> (k: int)
    requires
        copied <= p < len,
        forall|i: int|
            0 <= i < spans.len() ==> p < (#[trigger] spans[i]).start || spans[i].end <= p,
    ensures
        0 <= k < pieces(spans, copied, len).len(),
        pieces(spans, copied, len)[k] matches Piece::Kept { from, to } && from <= p < to,
    decreases spans.len(),
{
    if spans.len() == 0 {
        0
    } else {
        let span = spans[0];
        let rest = spans.drop_first();
        assert forall|i: int| 0 <= i < rest.len() implies p < (#[trigger] rest[i]).start
            || rest[i].end <= p by {
            assert(rest[i] == spans[i + 1]);
        }
        if span.end <= copied {
            lemma_kept_at(rest, copied, len, p)
        } else if p < span.start {
            0
        } else {
            let k = lemma_kept_at(rest, span.end as int, len, p);
            assert(pieces(spans, copied, len)[k + 2] == pieces(rest, span.end as int, len)[k]);
            k + 2
        }
    }
}

/// Law: a line reads as before up to what is taken out, then comes the marker, then the rest of the
/// line, redacted in the same way.
pub proof fn law_a_hidden_span_becomes_one_marker(s: Seq<char>, spans: Seq<Span>, copied: int)
    requires
        spans.len() > 0,
        0 <= copied <= spans[0].start < spans[0].end <= s.len(),
    ensures
        render(s, pieces(spans, copied, s.len() as int)) == s.subrange(
            copied,
            spans[0].start as int,
        ) + "[REDACTED]"@ + render(
            s,
            pieces(spans.drop_first(), spans[0].end as int, s.len() as int),
        ),
{
    let tail = pieces(spans.drop_first(), spans[0].end as int, s.len() as int);
    let both = seq![
        Piece::Kept { from: copied, to: spans[0].start as int },
        Piece::Hidden,
    ] + tail;
    reveal_with_fuel(render, 3);
    assert(both.drop_first().drop_first() =~= tail);
    assert(both.drop_first()[0] == Piece::Hidden);
    assert(render(s, both) =~= s.subrange(copied, spans[0].start as int) + "[REDACTED]"@ + render(
        s,
        tail,
    ));
}

/// Law: a line with one thing to hide is that line with one marker in its place.
pub proof fn law_one_thing_to_hide(s: Seq<char>, addresses: Seq<Span>, x: Span)
    requires
        hidden_spans(s, addresses) == seq![x],
        x.start < x.end <= s.len(),
    ensures
        redaction(s, addresses) == s.take(x.start as int) + "[REDACTED]"@ + s.skip(x.end as int),
{
    let spans = seq![x];
    law_a_hidden_span_becomes_one_marker(s, spans, 0);
    reveal_with_fuel(render, 2);
    assert(spans.drop_first() =~= Seq::<Span>::empty());
    let last = seq![Piece::Kept { from: x.end as int, to: s.len() as int }];
    assert(last.drop_first() =~= Seq::<Piece>::empty());
    assert(render(s, last) =~= s.skip(x.end as int));
    assert(s.subrange(0, x.start as int) =~= s.take(x.start as int));
}

/// Law: the address test is asked about every run of address characters as it stands, about the run
/// without the dots and colons at its ends, however long they are, and about nothing that is not
/// made of address characters.
pub proof fn law_address_runs_are_looked_at(s: Seq<char>, a: int, b: int, c: int, d: int, x: Span)
    requires
        s.len() <= usize::MAX,
        is_address_run(s, a, b),
        a <= c < d <= b,
        forall|i: int| a <= i < c || d <= i < b ==> (#[trigger] s[i] == '.' || s[i] == ':'),
        s[c] != '.' && s[c] != ':' && s[d - 1] != '.' && s[d - 1] != ':',
    ensures
        is_candidate(s, Span { start: a as usize, end: b as usize }),
        is_candidate(s, Span { start: c as usize, end: d as usize }),
        is_candidate(s, x) ==> x.start < x.end <= s.len() && forall|i: int|
            x.start <= i < x.end ==> is_address_char(#[trigger] s[i]),
{
    let run = Span { start: a as usize, end: b as usize };
    let core = Span { start: c as usize, end: d as usize };
    assert(run.is_run(s, Class::Network));
    assert(may_be_address(s, run, run));
    assert(may_be_address(s, run, core));
    if is_candidate(s, x) {
        let other = choose|other: Span| #[trigger]
            other.is_run(s, Class::Network) && may_be_address(s, other, x);
        assert forall|i: int| x.start <= i < x.end implies is_address_char(#[trigger] s[i]) by {
            assert(Class::Network.holds(s[i]));
        }
    }
}

/// Law: the address test is asked about what stands behind a label: the characters between a single
/// colon of a run and its end, without the dots that follow, if there are 64 of them at most.
pub proof fn law_what_a_label_names_is_looked_at(s: Seq<char>, a: int, b: int, c: int, d: int)
    requires
        s.len() <= usize::MAX,
        is_address_run(s, a, b),
        a < c < d <= b,
        d - c <= 64,
        s[c - 1] == ':',
        s[c] != ':',
        c - 1 > a ==> s[c - 2] != ':',
        forall|i: int| d <= i < b ==> #[trigger] s[i] == '.',
    ensures
        is_candidate(s, Span { start: c as usize, end: d as usize }),
{
    let run = Span { start: a as usize, end: b as usize };
    let x = Span { start: c as usize, end: d as usize };
    assert(run.is_run(s, Class::Network));
    assert(part_starts(s, run, c));
    assert(part_ends(s, run, d)) by {
        if d < b {
            assert(all_punctuation(s, d, b));
        }
    }
    assert(may_be_address(s, run, x));
}

/// Law: an address that stands in a line on its own, or before the dots and colons that end a
/// sentence, is taken out: where the test cannot but take it for an address, no kept piece of the
/// line holds a character of it. What the test does not take for an address is not given as one.
pub proof fn law_addresses_do_not_survive<F: Fn(&str) -> bool>(
    addresses: Seq<Span>,
    s: Seq<char>,
    test: F,
    a: int,
    b: int,
    c: int,
    d: int,
    k: int,
)
    requires
        s.len() <= usize::MAX,
        are_found(addresses, s, test),
        is_address_run(s, a, b),
        a <= c < d <= b,
        forall|i: int| a <= i < c || d <= i < b ==> (#[trigger] s[i] == '.' || s[i] == ':'),
        s[c] != '.' && s[c] != ':' && s[d - 1] != '.' && s[d - 1] != ':',
        !answers(test, s.subrange(c, d), false),
        0 <= k < pieces(hidden_spans(s, addresses), 0, s.len() as int).len(),
    ensures
        pieces(hidden_spans(s, addresses), 0, s.len() as int)[k] matches Piece::Kept { from, to }
            ==> from == to || to <= c || d <= from,
        forall|x: Span| #[trigger]
            addresses.contains(x) ==> answers(
                test,
                s.subrange(x.start as int, x.end as int),
                true,
            ),
{
    let x = Span { start: c as usize, end: d as usize };
    law_address_runs_are_looked_at(s, a, b, c, d, x);
    law_found_address_is_hidden(addresses, s, test, x);
    law_hidden_characters_do_not_survive(s, addresses, x, k);
    assert forall|y: Span| #[trigger] addresses.contains(y) implies answers(
        test,
        s.subrange(y.start as int, y.end as int),
        true,
    ) by {
        assert(is_candidate(s, y));
    }
}

/// Law: a run of address characters that the test cannot but take for an address is taken out whole.
pub proof fn law_address_runs_do_not_survive<F: Fn(&str) -> bool>(
    addresses: Seq<Span>,
    s: Seq<char>,
    test: F,
    a: int,
    b: int,
    k: int,
)
    requires
        s.len() <= usize::MAX,
        are_found(addresses, s, test),
        is_address_run(s, a, b),
        !answers(test, s.subrange(a, b), false),
        0 <= k < pieces(hidden_spans(s, addresses), 0, s.len() as int).len(),
    ensures
        pieces(hidden_spans(s, addresses), 0, s.len() as int)[k] matches Piece::Kept { from, to }
            ==> from == to || to <= a || b <= from,
{
    let x = Span { start: a as usize, end: b as usize };
    assert(x.is_run(s, Class::Network));
    assert(may_be_address(s, x, x));
    law_found_address_is_hidden(addresses, s, test, x);
    law_hidden_characters_do_not_survive(s, addresses, x, k);
}

/// Law: pieces are written one after the other: a kept one as it stands in the line, a hidden one as
/// the marker.
pub proof fn law_pieces_are_written_in_order(
    s: Seq<char>,
    a: Seq<Piece>,
    b: Seq<Piece>,
    from: int,
    to: int,
)
    ensures
        render(s, a + b) == render(s, a) + render(s, b),
        render(s, seq![Piece::Kept { from, to }]) == s.subrange(from, to),
        render(s, seq![Piece::Hidden]) == "[REDACTED]"@,
        render(s, Seq::<Piece>::empty()).len() == 0,
    decreases a.len(),
{
    let kept = seq![Piece::Kept { from, to }];
    let hidden = seq![Piece::Hidden];
    reveal_with_fuel(render, 2);
    assert(kept.drop_first() =~= Seq::<Piece>::empty());
    assert(hidden.drop_first() =~= Seq::<Piece>::empty());
    assert(render(s, kept) =~= s.subrange(from, to));
    assert(render(s, hidden) =~= "[REDACTED]"@);
    if a.len() == 0 {
        assert(a + b =~= b);
        assert(render(s, a) + render(s, b) =~= render(s, b));
    } else {
        assert((a + b).drop_first() =~= a.drop_first() + b);
        assert((a + b)[0] == a[0]);
        law_pieces_are_written_in_order(s, a.drop_first(), b, from, to);
        assert(render(s, a + b) =~= render(s, a) + render(s, b));
    }
}

/// Whether `line` is written of pieces of `s` and markers, none of the pieces holding anything of `s`
/// from `a` up to `b`.
pub open spec fn leaves_out(line: Seq<char>, s: Seq<char>, a: int, b: int) -> bool {
    exists|ps: Seq<Piece>| #[trigger]
        render(s, ps) == line && forall|k: int|
            0 <= k < ps.len() ==> ((#[trigger] ps[k]) matches Piece::Kept { from, to } ==> from == to
                || to <= a || b <= from)
}

/// Law: a redacted line leaves out every token of 32 characters or more that holds a digit or is all
/// hexadecimal, wherever it stands and however many there are, and every run of address characters
/// that the test cannot but take for an address.
pub proof fn law_redacted_line_leaves_out_what_identifies<F: Fn(&str) -> bool>(
    input: &str,
    test: F,
    line: String,
    a: int,
    b: int,
)
    requires
        input@.len() <= usize::MAX,
        call_ensures(redact_log_line::<F>, (input, test), line),
        (is_token(input@, a, b) && b - a >= 32 && is_varied(input@, a, b)) || (is_address_run(
            input@,
            a,
            b,
        ) && !answers(test, input@.subrange(a, b), false)),
    ensures
        leaves_out(line@, input@, a, b),
{
    let s = input@;
    let addresses = choose|addresses: Seq<Span>|
        are_found(addresses, s, test) && line@ == #[trigger] redaction(s, addresses);
    let ps = pieces(hidden_spans(s, addresses), 0, s.len() as int);
    assert(render(s, ps) == line@);
    assert forall|k: int| 0 <= k < ps.len() implies ((#[trigger] ps[k]) matches Piece::Kept {
        from,
        to,
    } ==> from == to || to <= a || b <= from) by {
        if is_token(s, a, b) && b - a >= 32 && is_varied(s, a, b) {
            lemma_found_are_within(addresses, s, test);
            law_long_tokens_do_not_survive(s, addresses, a, b, k);
        } else {
            law_address_runs_do_not_survive(addresses, s, test, a, b, k);
        }
    }
}

/// What was found lies within the line.
proof fn lemma_found_are_within<F: Fn(&str) -> bool>(addresses: Seq<Span>, s: Seq<char>, test: F)
    requires
        are_found(addresses, s, test),
    ensures
        within(addresses, s),
{
    assert forall|i: int| 0 <= i < addresses.len() implies (#[trigger] addresses[i]).start
        < addresses[i].end <= s.len() by {
        assert(addresses.contains(addresses[i]));
        assert(is_candidate(s, addresses[i]));
    }
}

/// Law: a line in which nothing identifies is left as it is, to the last character: no token of 32
/// characters or more in it, and nothing that the test can take for an address.
pub proof fn law_harmless_line_is_left_as_it_is<F: Fn(&str) -> bool>(
    input: &str,
    test: F,
    line: String,
)
    requires
        input@.len() <= usize::MAX,
        call_ensures(redact_log_line::<F>, (input, test), line),
        forall|a: int, b: int| #[trigger] is_token(input@, a, b) ==> b - a < 32,
        forall|text: Seq<char>| !(#[trigger] answers(test, text, true)),
    ensures
        line@ == input@,
{
    let s = input@;
    let addresses = choose|addresses: Seq<Span>|
        are_found(addresses, s, test) && line@ == #[trigger] redaction(s, addresses);
    if addresses.len() > 0 {
        assert(addresses.contains(addresses[0]));
        assert(answers(test, addresses[0].of(s), true));
    }
    let spans = hidden_spans(s, addresses);
    if spans.len() > 0 {
        assert(spans.contains(spans[0]));
        law_nothing_else_is_hidden(s, addresses, spans[0]);
        if addresses.contains(spans[0]) {
        } else {
            assert(is_token(s, spans[0].start as int, spans[0].end as int));
        }
    }
    let ps = pieces(spans, 0, s.len() as int);
    let n = s.len() as int;
    law_pieces_are_written_in_order(s, Seq::empty(), Seq::empty(), 0, n);
    assert(ps =~= seq![Piece::Kept { from: 0, to: n }]);
    assert(s.subrange(0, n) =~= s);
}

/// Law: given what the addresses are, redaction writes the line without them and without what looks
/// like an identifier, by the pieces.
pub proof fn law_given_addresses_are_taken_out(input: &str, addresses: Vec<Span>, line: String)
    requires
        call_ensures(redact_given, (input, &addresses), line),
    ensures
        line@ == render(
            input@,
            pieces(hidden_spans(input@, addresses@), 0, input@.len() as int),
        ),
{
}

/// Whether there is nothing but dots and colons in `s` from `a` up to `b`.
pub open spec fn only_dots_and_colons(s: Seq<char>, a: int, b: int) -> bool {
    forall|i: int| a <= i < b ==> (#[trigger] s[i] == '.' || s[i] == ':')
}

/// Whether the part from `c` up to `d` of the run from `a` up to `b` is one that the address test is
/// asked about: the run, the run without the dots and colons at its ends, or at most 64 characters
/// that are set off on either side by the end of the run, by a colon with no other next to it, or by
/// the dots and colons at that end of the run, a dot being the nearest.
pub open spec fn is_set_off(s: Seq<char>, a: int, b: int, c: int, d: int) -> bool {
    ||| c == a && d == b
    ||| {
        &&& only_dots_and_colons(s, a, c) && only_dots_and_colons(s, d, b)
        &&& s[c] != '.' && s[c] != ':' && s[d - 1] != '.' && s[d - 1] != ':'
    }
    ||| {
        &&& d - c <= 64
        &&& {
            ||| c == a
            ||| s[c - 1] == ':' && s[c] != ':' && (c - 1 > a ==> s[c - 2] != ':')
            ||| s[c - 1] == '.' && only_dots_and_colons(s, a, c)
        }
        &&& {
            ||| d == b
            ||| s[d] == ':' && s[d - 1] != ':' && (d + 1 < b ==> s[d + 1] != ':')
            ||| s[d] == '.' && only_dots_and_colons(s, d, b)
        }
    }
}

/// Law: these are the parts that the address test is asked about, and there are no others.
pub proof fn law_what_the_address_test_is_asked(s: Seq<char>, a: int, b: int, c: int, d: int)
    requires
        s.len() <= usize::MAX,
        is_address_run(s, a, b),
        a <= c < d <= b,
    ensures
        is_candidate(s, Span { start: c as usize, end: d as usize }) <==> is_set_off(s, a, b, c, d),
{
    let run = Span { start: a as usize, end: b as usize };
    let x = Span { start: c as usize, end: d as usize };
    assert(run.is_run(s, Class::Network));
    assert(all_punctuation(s, a, c) <==> only_dots_and_colons(s, a, c)) by {
        if only_dots_and_colons(s, a, c) {
            assert forall|k: int| a <= k < c implies is_punctuation(#[trigger] s[k]) by {}
        }
        if all_punctuation(s, a, c) {
            assert forall|k: int| a <= k < c implies (#[trigger] s[k] == '.' || s[k] == ':') by {
                assert(is_punctuation(s[k]));
            }
        }
    }
    assert(all_punctuation(s, d, b) <==> only_dots_and_colons(s, d, b)) by {
        if only_dots_and_colons(s, d, b) {
            assert forall|k: int| d <= k < b implies is_punctuation(#[trigger] s[k]) by {}
        }
        if all_punctuation(s, d, b) {
            assert forall|k: int| d <= k < b implies (#[trigger] s[k] == '.' || s[k] == ':') by {
                assert(is_punctuation(s[k]));
            }
        }
    }
    assert(may_be_address(s, run, x) <==> is_set_off(s, a, b, c, d));
    if is_candidate(s, x) {
        let other = choose|other: Span| #[trigger]
            other.is_run(s, Class::Network) && may_be_address(s, other, x);
        lemma_same_run(run, other, s, Class::Network, c);
    }
}

/// Law: a redacted line leaves out every such part that the test cannot but take for an address: a
/// host before its port, what stands behind a label, and what ends a sentence.
pub proof fn law_redacted_line_leaves_out_addresses<F: Fn(&str) -> bool>(
    input: &str,
    test: F,
    line: String,
    a: int,
    b: int,
    c: int,
    d: int,
)
    requires
        input@.len() <= usize::MAX,
        call_ensures(redact_log_line::<F>, (input, test), line),
        is_address_run(input@, a, b),
        a <= c < d <= b,
        is_set_off(input@, a, b, c, d),
        !answers(test, input@.subrange(c, d), false),
    ensures
        leaves_out(line@, input@, c, d),
{
    let s = input@;
    let addresses = choose|addresses: Seq<Span>|
        are_found(addresses, s, test) && line@ == #[trigger] redaction(s, addresses);
    let ps = pieces(hidden_spans(s, addresses), 0, s.len() as int);
    let x = Span { start: c as usize, end: d as usize };
    law_what_the_address_test_is_asked(s, a, b, c, d);
    law_found_address_is_hidden(addresses, s, test, x);
    assert(render(s, ps) == line@);
    assert forall|k: int| 0 <= k < ps.len() implies ((#[trigger] ps[k]) matches Piece::Kept {
        from,
        to,
    } ==> from == to || to <= c || d <= from) by {
        law_hidden_characters_do_not_survive(s, addresses, x, k);
    }
}

/// Law: a redacted line leaves out nothing but that: what is taken out of it is a token of 32
/// characters or more that holds a digit or is all hexadecimal, or a part that the test may take for
/// an address; every other character is in a kept piece.
pub proof fn law_redacted_line_leaves_out_nothing_else<F: Fn(&str) -> bool>(
    input: &str,
    test: F,
    line: String,
    p: int,
)
    requires
        input@.len() <= usize::MAX,
        call_ensures(redact_log_line::<F>, (input, test), line),
        0 <= p < input@.len(),
        forall|a: int, b: int| #[trigger]
            is_token(input@, a, b) && b - a >= 32 && is_varied(input@, a, b) ==> p < a || b <= p,
        forall|a: int, b: int|
            a <= p < b ==> !answers(test, #[trigger] input@.subrange(a, b), true),
    ensures
        exists|ps: Seq<Piece>, k: int|
            #![trigger render(input@, ps), ps[k]]
            render(input@, ps) == line@ && 0 <= k < ps.len() && (ps[k] matches Piece::Kept {
                from,
                to,
            } && from <= p < to),
{
    let s = input@;
    let addresses = choose|addresses: Seq<Span>|
        are_found(addresses, s, test) && line@ == #[trigger] redaction(s, addresses);
    let spans = hidden_spans(s, addresses);
    let ps = pieces(spans, 0, s.len() as int);
    assert forall|x: Span| #[trigger] spans.contains(x) implies p < x.start || x.end <= p by {
        law_nothing_else_is_hidden(s, addresses, x);
        if addresses.contains(x) {
            assert(is_candidate(s, x));
            assert(answers(test, s.subrange(x.start as int, x.end as int), true));
        } else {
            assert(is_token(s, x.start as int, x.end as int));
        }
    }
    law_the_rest_of_the_line_is_kept(s, addresses, p);
    let k = choose|k: int| 0 <= k < ps.len() && ((#[trigger] ps[k]) matches Piece::Kept { from, to }
        && from <= p < to);
    assert(render(s, ps) == line@);
}

} // verus!
