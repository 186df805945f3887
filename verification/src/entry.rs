//! Replicated entries: their keys, their clock, where their content may be had, and when to try
//! again.

use crate::content::{ContentHash, NamespaceId};
use crate::retention::cutoff_ms;
use crate::table::{same_id, Id};
use crate::text::{
    decimal, first_position, hex_bytes, hex_text, lemma_first_position, lemma_hex_reads_back,
    parse_decimal, parse_hex,
};
use vstd::arithmetic::power2::{lemma2_to64, pow2};
use vstd::bits::lemma_u64_shl_is_mul;
use vstd::prelude::*;

verus! {

/// `bytes` read as characters, one a byte.
pub open spec fn byte_chars(bytes: Seq<u8>) -> Seq<char> {
    bytes.map_values(|b: u8| b as char)
}

/// What a key `hex(author)/seq` says: the bytes before its first slash in hexadecimal, and the
/// number after it in decimal. Nothing, where there is no slash or one of the two does not read.
pub open spec fn key_parts(key: Seq<u8>) -> Option<(Seq<u8>, nat)> {
    let cs = byte_chars(key);
    match first_position(cs, '/') {
        Some(i) => match (hex_bytes(cs.take(i), true), decimal(cs.skip(i + 1), u64::MAX as nat)) {
            (Some(author), Some(seq)) => Some((author, seq)),
            _ => None,
        },
        None => None,
    }
}

/// The author that a key names; none, if the key does not decode.
pub open spec fn key_author(key: Seq<u8>) -> Seq<u8> {
    match key_parts(key) {
        Some((author, _)) => author,
        None => Seq::empty(),
    }
}

/// The sequence number that a key holds; zero, if the key does not decode.
pub open spec fn key_seq(key: Seq<u8>) -> nat {
    match key_parts(key) {
        Some((_, seq)) => seq,
        None => 0,
    }
}

fn slice_chars(bytes: &[u8], from: usize, to: usize) -> (r: Vec<char>)
    requires
        from <= to <= bytes@.len(),
    ensures
        r@ == byte_chars(bytes@).subrange(from as int, to as int),
{
    let mut out: Vec<char> = Vec::new();
    let mut i: usize = from;
    while i < to
        invariant
            from <= i <= to <= bytes@.len(),
            out@ == byte_chars(bytes@).subrange(from as int, i as int),
        decreases to - i,
    {
        out.push(bytes[i] as char);
        assert(out@ =~= byte_chars(bytes@).subrange(from as int, i + 1));
        i = i + 1;
    }
    out
}

/// Decodes an entry's key, `hex(author)/{seq:020}`, into author and sequence number. A key is never
/// decoded in part: on any failure there is no author and the number is zero, so that a delivery
/// service can tell such a key and refuse it.
pub fn decode_author_seq(key: &[u8]) -> (r: (Vec<u8>, u64))
    ensures
        match key_parts(key@) {
            Some((author, seq)) => r.0@ == author && r.1 == seq,
            None => r.0@.len() == 0 && r.1 == 0,
        },
{
    let ghost cs = byte_chars(key@);
    proof {
        lemma_first_position(cs, '/');
    }
    let mut pos: usize = 0;
    while pos < key.len() && key[pos] != 47
        invariant
            pos <= key@.len(),
            cs == byte_chars(key@),
            forall|k: int| 0 <= k < pos ==> #[trigger] cs[k] != '/',
        decreases key@.len() - pos,
    {
        assert(cs[pos as int] != '/');
        pos = pos + 1;
    }
    if pos == key.len() {
        return (Vec::new(), 0);
    }
    assert(cs[pos as int] == '/');
    assert(first_position(cs, '/') == Some(pos as int));
    let head = slice_chars(key, 0, pos);
    let tail = slice_chars(key, pos + 1, key.len());
    assert(head@ =~= cs.take(pos as int));
    assert(tail@ =~= cs.skip(pos + 1));
    match (parse_hex(&head, true), parse_decimal(&tail, u64::MAX)) {
        (Some(author), Some(seq)) => (author, seq),
        _ => (Vec::new(), 0),
    }
}

/// Law: a key that was written as an author in hexadecimal, a slash and a number in decimal decodes
/// to that author and that number.
pub proof fn law_key_decodes_to_what_was_encoded(key: Seq<u8>, author: Seq<u8>, digits: Seq<char>)
    requires
        byte_chars(key) == hex_text(author) + seq!['/'] + digits,
        decimal(digits, u64::MAX as nat) is Some,
    ensures
        key_parts(key) == Some((author, decimal(digits, u64::MAX as nat)->0)),
{
    let cs = byte_chars(key);
    let i = hex_text(author).len() as int;
    lemma_hex_reads_back(author, true);
    lemma_first_position(cs, '/');
    assert forall|k: int| 0 <= k < i implies #[trigger] cs[k] != '/' by {
        assert(cs[k] == hex_text(author)[k]);
    }
    assert(cs[i] == '/');
    assert(cs.take(i) =~= hex_text(author));
    assert(cs.skip(i + 1) =~= digits);
}

/// Milliseconds for a timestamp in microseconds.
pub open spec fn written_ms(timestamp_us: u64) -> nat {
    timestamp_us as nat / 1_000
}

/// An entry as a namespace's document lists it.
#[derive(Debug, Clone, Copy)]
pub struct DocEntry {
    /// The hash of its content.
    pub hash: ContentHash,
    /// When it was written, in microseconds since the Unix epoch.
    pub timestamp_us: u64,
}

/// When an entry was written, in milliseconds. Documents stamp entries in microseconds, while
/// retention works in milliseconds.
pub fn entry_written_ms(entry: &DocEntry) -> (r: u64)
    ensures
        r == written_ms(entry.timestamp_us),
{
    entry.timestamp_us / 1_000
}

/// The entries of one namespace's document.
#[derive(Debug)]
pub struct Listing {
    pub namespace: NamespaceId,
    pub entries: Vec<DocEntry>,
}

impl DocEntry {
    /// Whether the entry is older than a window of `window` milliseconds that ends at `now`.
    pub open spec fn expired(self, window: nat, now: nat) -> bool {
        written_ms(self.timestamp_us) < cutoff_ms(window, now)
    }
}

/// Whether `entries` hold `hash`.
pub open spec fn lists(entries: Seq<DocEntry>, hash: ContentHash) -> bool {
    exists|i: int| 0 <= i < entries.len() && (#[trigger] entries[i]).hash == hash
}

/// Whether every entry of `hash` among `entries` has expired.
pub open spec fn all_expired(
    entries: Seq<DocEntry>,
    hash: ContentHash,
    window: nat,
    now: nat,
) -> bool {
    forall|i: int|
        0 <= i < entries.len() && (#[trigger] entries[i]).hash == hash ==> entries[i].expired(
            window,
            now,
        )
}

/// The unit of the wait after failed fetches, in milliseconds.
pub const BACKOFF_BASE_MS: u64 = 500;

/// The longest wait after a failed fetch, in milliseconds.
pub const BACKOFF_CEILING_MS: u64 = 60_000;

/// How long to wait after `attempts` failed fetches: twice as long each time, up to a ceiling.
pub open spec fn backoff(attempts: nat) -> nat {
    let wait = BACKOFF_BASE_MS as nat * pow2(
        if attempts < 7 {
            attempts
        } else {
            7
        },
    );
    if wait < BACKOFF_CEILING_MS {
        wait
    } else {
        BACKOFF_CEILING_MS as nat
    }
}

/// The wait before the next fetch after `attempts` failed ones.
pub fn backoff_ms(attempts: u32) -> (r: u64)
    ensures
        r == backoff(attempts as nat),
        r <= BACKOFF_CEILING_MS,
{
    let doublings: u64 = if attempts < 7 {
        attempts as u64
    } else {
        7
    };
    proof {
        lemma2_to64();
        lemma_pow2_at_most_128(doublings as nat);
        lemma_u64_shl_is_mul(1, doublings);
    }
    let wait: u64 = BACKOFF_BASE_MS * (1u64 << doublings);
    if wait < BACKOFF_CEILING_MS {
        wait
    } else {
        BACKOFF_CEILING_MS
    }
}

proof fn lemma_pow2_at_most_128(n: nat)
    requires
        n <= 7,
    ensures
        1 <= pow2(n) <= 128,
{
    lemma2_to64();
    assert(n == 0 || n == 1 || n == 2 || n == 3 || n == 4 || n == 5 || n == 6 || n == 7);
}

/// Law: the wait never shrinks as failures add up, starts at the base and stays under the ceiling.
pub proof fn law_backoff_grows_to_a_ceiling(attempts: nat, more: nat)
    requires
        attempts <= more,
    ensures
        BACKOFF_BASE_MS <= backoff(attempts) <= backoff(more) <= BACKOFF_CEILING_MS,
{
    lemma2_to64();
    let a = if attempts < 7 {
        attempts
    } else {
        7
    };
    let b = if more < 7 {
        more
    } else {
        7
    };
    assert(a == 0 || a == 1 || a == 2 || a == 3 || a == 4 || a == 5 || a == 6 || a == 7);
    assert(b == 0 || b == 1 || b == 2 || b == 3 || b == 4 || b == 5 || b == 6 || b == 7);
}

/// Whether iroh takes `bytes` as an endpoint id.
pub uninterp spec fn is_endpoint_id(bytes: Seq<u8>) -> bool;

/// Whether `iroh::EndpointId::from_bytes` accepts `bytes`. Trusted: that this is a function of the
/// bytes alone. Which bytes are points of the curve is not stated.
#[verifier::external_body]
fn endpoint_id_accepts(bytes: &Id) -> (r: bool)
    ensures
        r == is_endpoint_id(bytes@),
{
    iroh::EndpointId::from_bytes(bytes).is_ok()
}

/// Who may have an entry's content: the peer that delivered the record and, where the author is an
/// endpoint and another one, the author.
pub open spec fn sources(
    delivered_by: Seq<u8>,
    author: Seq<u8>,
    author_is_endpoint: bool,
) -> Seq<Seq<u8>> {
    if author.len() == 32 && author_is_endpoint && author != delivered_by {
        seq![delivered_by, author]
    } else {
        seq![delivered_by]
    }
}

/// Law: whoever the author is, the peer that delivered the record is asked, and asked first; nobody
/// is asked twice.
pub proof fn law_delivering_peer_is_asked_first(
    delivered_by: Seq<u8>,
    author: Seq<u8>,
    author_is_endpoint: bool,
)
    ensures
        sources(delivered_by, author, author_is_endpoint).len() >= 1,
        sources(delivered_by, author, author_is_endpoint)[0] == delivered_by,
        sources(delivered_by, author, author_is_endpoint).no_duplicates(),
{
}

fn author_id(author: &Vec<u8>) -> (r: Option<Id>)
    ensures
        match r {
            Some(id) => author@.len() == 32 && id@ == author@,
            None => author@.len() != 32,
        },
{
    if author.len() != 32 {
        return None;
    }
    let mut id: Id = [0u8; 32];
    let mut i: usize = 0;
    while i < 32
        invariant
            i <= 32,
            author@.len() == 32,
            forall|k: int| 0 <= k < i ==> #[trigger] id@[k] == author@[k],
        decreases 32 - i,
    {
        id[i] = author[i];
        i = i + 1;
    }
    assert(id@ =~= author@);
    Some(id)
}

/// The candidates for a fetch, given whether the author's bytes are an endpoint id.
pub fn fetch_sources_given(delivered_by: Id, author: &Vec<u8>, author_is_endpoint: bool) -> (r: Vec<
    Id,
>)
    ensures
        r@.map_values(|id: Id| id@) == sources(delivered_by@, author@, author_is_endpoint),
{
    let mut out: Vec<Id> = Vec::new();
    out.push(delivered_by);
    match author_id(author) {
        Some(id) => {
            if author_is_endpoint && !same_id(&id, &delivered_by) {
                assert(id@ != delivered_by@) by {
                    if id@ == delivered_by@ {
                        assert(id =~= delivered_by);
                    }
                }
                out.push(id);
            }
        },
        None => {},
    }
    assert(out@.map_values(|id: Id| id@) =~= sources(delivered_by@, author@, author_is_endpoint));
    out
}

/// The candidates for a fetch of an entry's content. A phone replicates its friends' trails, so the
/// peer that delivered a record may serve it while its author is away; the author comes second.
pub fn fetch_sources(delivered_by: Id, author: &Vec<u8>) -> (r: Vec<Id>)
    ensures
        r@.map_values(|id: Id| id@) == sources(delivered_by@, author@, is_endpoint_id(author@)),
{
    let accepted = match author_id(author) {
        Some(id) => endpoint_id_accepts(&id),
        None => false,
    };
    let out = fetch_sources_given(delivered_by, author, accepted);
    assert(sources(delivered_by@, author@, accepted) == sources(
        delivered_by@,
        author@,
        is_endpoint_id(author@),
    ));
    out
}

/// Law: a key is read at its first slash: the author in hexadecimal before it, in either case, and
/// the number in decimal after it. It gives both or, where one of them does not read, neither.
pub proof fn law_key_is_read_at_its_first_slash(key: &[u8], i: int, r: (Vec<u8>, u64))
    requires
        call_ensures(decode_author_seq, (key,), r),
        0 <= i < key@.len(),
        key@[i] == 47,
        forall|k: int| 0 <= k < i ==> #[trigger] key@[k] != 47,
    ensures
        ({
            let author = hex_bytes(key@.take(i).map_values(|b: u8| b as char), true);
            let seq = decimal(
                key@.skip(i + 1).map_values(|b: u8| b as char),
                18_446_744_073_709_551_615,
            );
            &&& author is Some && seq is Some ==> r.0@ == author->0 && r.1 == seq->0
            &&& author is None || seq is None ==> r.0@.len() == 0 && r.1 == 0
        }),
{
    let cs = byte_chars(key@);
    lemma_first_position(cs, '/');
    assert(cs[i] == '/');
    assert forall|k: int| 0 <= k < i implies #[trigger] cs[k] != '/' by {
        assert(key@[k] != 47);
    }
    assert(first_position(cs, '/') == Some(i));
    assert(cs.take(i) =~= key@.take(i).map_values(|b: u8| b as char));
    assert(cs.skip(i + 1) =~= key@.skip(i + 1).map_values(|b: u8| b as char));
}

/// Law: a key without a slash gives no author and the number zero.
pub proof fn law_key_without_a_slash_says_nothing(key: &[u8], r: (Vec<u8>, u64))
    requires
        call_ensures(decode_author_seq, (key,), r),
        forall|k: int| 0 <= k < key@.len() ==> #[trigger] key@[k] != 47,
    ensures
        r.0@.len() == 0,
        r.1 == 0,
{
    let cs = byte_chars(key@);
    lemma_first_position(cs, '/');
    if first_position(cs, '/') is Some {
        let i = first_position(cs, '/')->0;
        assert(cs[i] == '/');
        assert(key@[i] != 47);
    }
}

/// Law: an author and a number are what the key gives, and what it does not give is empty and zero.
pub proof fn law_author_and_number_are_those_of_the_key(key: &[u8], r: (Vec<u8>, u64))
    requires
        call_ensures(decode_author_seq, (key,), r),
    ensures
        key_author(key@) == r.0@,
        key_seq(key@) == r.1,
{
    assert(key_parts(key@) is None ==> r.0@ =~= Seq::<u8>::empty());
}

/// Law: an entry's time in milliseconds is its time in microseconds, without the part of a
/// millisecond; and it has expired exactly when more than the window lies between then and now.
pub proof fn law_entry_time_is_in_milliseconds(entry: DocEntry, r: u64, window: nat, now: nat)
    requires
        call_ensures(entry_written_ms, (&entry,), r),
    ensures
        1_000 * r <= entry.timestamp_us < 1_000 * r + 1_000,
        entry.expired(window, now) <==> r + window < now,
{
}

/// Law: the wait starts at half a second and doubles with every further failure, up to a minute.
pub proof fn law_wait_doubles_up_to_a_minute(attempts: u32, r: u64, next: u64)
    requires
        attempts < u32::MAX,
        call_ensures(backoff_ms, (attempts,), r),
        call_ensures(backoff_ms, ((attempts + 1) as u32,), next),
    ensures
        attempts == 0 ==> r == 500,
        next == if 2 * r < 60_000 {
            2 * r
        } else {
            60_000
        },
{
    lemma2_to64();
    let a = if attempts < 7 {
        attempts as nat
    } else {
        7
    };
    assert(a == 0 || a == 1 || a == 2 || a == 3 || a == 4 || a == 5 || a == 6 || a == 7);
}

/// Law: the peer that delivered a record is asked first; its author is asked second exactly when its
/// 32 bytes are an endpoint's and not that peer's; nobody else is asked.
pub proof fn law_whom_to_ask(delivered_by: Id, author: Vec<u8>, r: Vec<Id>)
    requires
        call_ensures(fetch_sources, (delivered_by, &author), r),
    ensures
        ({
            let second = author@.len() == 32 && is_endpoint_id(author@) && author@ != delivered_by@;
            &&& r@.len() >= 1 && r@[0]@ == delivered_by@
            &&& second ==> r@.len() == 2 && r@[1]@ == author@
            &&& !second ==> r@.len() == 1
        }),
{
    let views = r@.map_values(|id: Id| id@);
    assert(views.len() == r@.len());
    assert(views[0] == r@[0]@);
    if r@.len() == 2 {
        assert(views[1] == r@[1]@);
    }
}

/// Law: given whether its author is an endpoint, whom to ask for an entry's content: the peer that
/// delivered the record first, and second the author exactly when it is an endpoint of 32 bytes and
/// another one.
pub proof fn law_whom_to_ask_given(
    delivered_by: Id,
    author: Vec<u8>,
    author_is_endpoint: bool,
    r: Vec<Id>,
)
    requires
        call_ensures(fetch_sources_given, (delivered_by, &author, author_is_endpoint), r),
    ensures
        ({
            let second = author@.len() == 32 && author_is_endpoint && author@ != delivered_by@;
            &&& r@.len() >= 1 && r@[0]@ == delivered_by@
            &&& second ==> r@.len() == 2 && r@[1]@ == author@
            &&& !second ==> r@.len() == 1
        }),
{
    let views = r@.map_values(|id: Id| id@);
    assert(views.len() == r@.len());
    assert(views[0] == r@[0]@);
    if r@.len() == 2 {
        assert(views[1] == r@[1]@);
    }
}

} // verus!
