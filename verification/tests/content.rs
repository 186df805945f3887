//! Content presence.

use trail_stash::content::{ContentHash, ContentIndex, NamespaceId};

const NS_A: NamespaceId = [1u8; 32];
const NS_B: NamespaceId = [2u8; 32];
const HASH: ContentHash = [9u8; 32];
const OTHER: ContentHash = [8u8; 32];

#[test]
fn an_unreferenced_hash_is_not_tracked() {
    let index = ContentIndex::new();
    assert!(!index.is_tracked(&HASH));
    assert!(index.referenced().is_empty());
}

#[test]
fn wanting_a_hash_tracks_it_and_counts_it_as_missing() {
    let mut index = ContentIndex::new();
    index.want(NS_A, HASH);
    assert!(index.is_tracked(&HASH));
    assert!(!index.is_present(&HASH));
    assert_eq!(index.missing_count(), 1);
    assert_eq!(
        index.referenced(),
        vec![HASH],
        "a blob still being fetched must stay protected from the GC sweep"
    );
}

#[test]
fn arrival_clears_the_missing_count() {
    let mut index = ContentIndex::new();
    index.want(NS_A, HASH);
    index.mark_present(HASH);
    assert!(index.is_present(&HASH));
    assert_eq!(index.missing_count(), 0);
    assert_eq!(index.tracked_count(), 1);
}

#[test]
fn marking_an_unwanted_hash_present_is_ignored() {
    let mut index = ContentIndex::new();
    index.mark_present(HASH);
    assert!(
        !index.is_tracked(&HASH),
        "a stray blob must not become tracked"
    );
    assert_eq!(index.tracked_count(), 0);
}

#[test]
fn re_wanting_a_present_hash_does_not_resurrect_it_as_missing() {
    let mut index = ContentIndex::new();
    index.want(NS_A, HASH);
    index.mark_present(HASH);
    // The same entry reconciles again from another peer.
    index.want(NS_A, HASH);
    assert_eq!(index.missing_count(), 0);
}

#[test]
fn forgetting_the_last_reference_reports_the_blob_is_deletable() {
    let mut index = ContentIndex::new();
    index.want(NS_A, HASH);
    index.mark_present(HASH);
    assert!(index.forget(&NS_A, &HASH));
    assert!(!index.is_tracked(&HASH));
    assert_eq!(index.tracked_count(), 0);
}

#[test]
fn a_hash_shared_by_two_namespaces_survives_one_prune() {
    let mut index = ContentIndex::new();
    index.want(NS_A, HASH);
    index.want(NS_B, HASH);
    index.mark_present(HASH);

    assert!(
        !index.forget(&NS_A, &HASH),
        "the blob is still referenced by NS_B and must not be deleted"
    );
    assert!(index.is_tracked(&HASH));
    assert!(
        index.is_present(&HASH),
        "presence must survive a partial prune"
    );

    assert!(index.forget(&NS_B, &HASH));
    assert!(!index.is_tracked(&HASH));
}

#[test]
fn forgetting_is_idempotent_and_scoped_to_one_hash() {
    let mut index = ContentIndex::new();
    index.want(NS_A, HASH);
    index.want(NS_A, OTHER);
    assert!(index.forget(&NS_A, &HASH));
    assert!(
        index.forget(&NS_A, &HASH),
        "double prune must stay deletable"
    );
    assert!(index.is_tracked(&OTHER), "pruning one entry kept the other");
    assert_eq!(index.tracked_count(), 1);
}

#[test]
fn references_are_counted_once_each() {
    let mut index = ContentIndex::default();
    index.want(NS_A, HASH);
    index.want(NS_A, HASH);
    assert_eq!(index.tracked_count(), 1);
    assert!(index.forget(&NS_A, &HASH));
    assert!(index.referenced().is_empty());
}

#[test]
fn forgetting_what_another_namespace_references_changes_nothing() {
    let mut index = ContentIndex::new();
    index.want(NS_A, HASH);
    assert!(!index.forget(&NS_B, &HASH));
    assert!(index.is_tracked(&HASH));
    assert!(index.forget(&NS_B, &OTHER));
}
