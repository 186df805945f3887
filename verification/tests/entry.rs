//! Entry keys, fetch sources and backoff.

use trail_stash::entry::{
    backoff_ms, decode_author_seq, entry_written_ms, fetch_sources, fetch_sources_given, DocEntry,
};

fn key(author: &str, rest: &str) -> Vec<u8> {
    format!("{author}/{rest}").into_bytes()
}

#[test]
fn a_key_decodes_to_author_and_number() {
    let author = "ab".repeat(32);
    let (decoded, seq) = decode_author_seq(&key(&author, &format!("{:020}", 42u64)));
    assert_eq!(decoded, vec![0xab; 32]);
    assert_eq!(seq, 42);
    let (decoded, seq) = decode_author_seq(&key(&author.to_uppercase(), &u64::MAX.to_string()));
    assert_eq!(decoded, vec![0xab; 32]);
    assert_eq!(seq, u64::MAX);
}

#[test]
fn a_key_is_never_decoded_in_part() {
    for key in [
        &b""[..],
        b"ab",
        b"abcd",
        b"abc/7",
        b"zz/7",
        b"zz/00000000000000000007",
        b"\xff\xff/7",
        b"ab/",
        b"ab/x",
        b"ab/7/8",
        b"ab/18446744073709551616",
        b"ab/\xff",
    ] {
        assert_eq!(decode_author_seq(key), (Vec::new(), 0));
    }
    // An empty author is written as nothing.
    assert_eq!(decode_author_seq(b"/7"), (Vec::new(), 7));
    assert_eq!(decode_author_seq(b"ab/7"), (vec![0xab], 7));
}

#[test]
fn timestamps_are_microseconds() {
    let entry = |timestamp_us| DocEntry {
        hash: [0; 32],
        timestamp_us,
    };
    assert_eq!(entry_written_ms(&entry(1_700_000_000_123_456)), 1_700_000_000_123);
    assert_eq!(entry_written_ms(&entry(999)), 0);
}

#[test]
fn backoff_doubles_up_to_a_minute() {
    let waits: Vec<u64> = (0..=8).map(backoff_ms).collect();
    assert_eq!(
        waits,
        vec![500, 1_000, 2_000, 4_000, 8_000, 16_000, 32_000, 60_000, 60_000]
    );
    assert_eq!(backoff_ms(u32::MAX), 60_000);
}

#[test]
fn the_delivering_peer_comes_first_then_the_author() {
    let peer = [9u8; 32];
    let author = iroh::SecretKey::from_bytes(&[3u8; 32]).public();
    let bytes = author.as_bytes().to_vec();
    assert_eq!(fetch_sources(peer, &bytes), vec![peer, *author.as_bytes()]);
    // The author delivered it: one source is enough.
    assert_eq!(
        fetch_sources(*author.as_bytes(), &bytes),
        vec![*author.as_bytes()]
    );
}

#[test]
fn an_author_that_is_no_endpoint_is_not_asked() {
    let peer = [9u8; 32];
    let bad = (0..=255u8)
        .map(|b| [b; 32])
        .find(|id| iroh::EndpointId::from_bytes(id).is_err())
        .expect("bytes that are no curve point");
    assert_eq!(fetch_sources(peer, &bad.to_vec()), vec![peer]);
    assert_eq!(fetch_sources(peer, &Vec::new()), vec![peer]);
    assert_eq!(fetch_sources(peer, &vec![1; 31]), vec![peer]);
}

#[test]
fn sources_follow_the_verdict_on_the_author() {
    let peer = [9u8; 32];
    let author = vec![4u8; 32];
    assert_eq!(fetch_sources_given(peer, &author, true), vec![peer, [4; 32]]);
    assert_eq!(fetch_sources_given(peer, &author, false), vec![peer]);
    assert_eq!(fetch_sources_given([4; 32], &author, true), vec![[4; 32]]);
    assert_eq!(fetch_sources_given(peer, &vec![4; 33], true), vec![peer]);
}
