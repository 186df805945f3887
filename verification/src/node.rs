//! The stash node's state: what it replicates, for whom, and what it still owes its readers.
//!
//! Reconciliation moves entry records; the bytes that they name are a separate transfer, and a
//! phone is often asleep before that transfer ends. So the node tracks every referenced hash,
//! keeps retrying the fetch until the bytes land, wakes subscribers once the entry can be served,
//! and reports what is still missing. Each method here is one step of that: the caller performs the
//! transfers and hands the outcome back.

pub use crate::clock::now_ms;
use crate::content::{ContentHash, ContentIndex, ContentView};
use crate::entry::{
    all_expired, backoff_ms, decode_author_seq, entry_written_ms, fetch_sources, is_endpoint_id,
    key_author, key_seq, law_author_and_number_are_those_of_the_key, lists, sources, DocEntry, Listing, BACKOFF_CEILING_MS,
};
use crate::mls::{Admission, DeliveryService, EnvelopeRef, EnvelopeView, PassthroughDelivery};
use crate::retention::RetentionPolicy;
use crate::stash_model::{
    lemma_arrival_consistent, lemma_found_consistent, lemma_keeping_all, lemma_keeping_consistent,
    lemma_keeping_less, lemma_keeping_one_less, lemma_settle_consistent, none_fresh, retired, ArrivalView,
    EntryView, NodeView, WakeView, WAKE_FALLBACK_MS,
};
use crate::subscriptions::{
    NamespaceId, NamespaceRegistry, PushSubscription, RegistryView, SubscriptionView,
};
use crate::table::{same_id, Id, Table};
use crate::waker::NoopWaker;
use std::sync::Arc;
use vstd::prelude::*;

verus! {

/// How often the settle loop checks whether content has landed, in milliseconds.
pub const SETTLE_INTERVAL_MS: u64 = 250;

/// How long one content fetch may run, in seconds.
pub const FETCH_TIMEOUT_SECS: u64 = 20;

/// How often the blob store reclaims what no entry references any more, in seconds.
pub const GC_INTERVAL_SECS: u64 = 300;

/// A replicated entry on its way to being servable.
#[derive(Debug)]
struct TrackedEntry {
    namespace: NamespaceId,
    author: Vec<u8>,
    delivered_by: Id,
    seq: u64,
    first_seen_ms: u64,
    content_present: bool,
    announced: Vec<NamespaceId>,
    next_attempt_ms: u64,
    attempts: u32,
}

impl View for TrackedEntry {
    type V = EntryView;

    closed spec fn view(&self) -> EntryView {
        EntryView {
            namespace: self.namespace,
            author: self.author@,
            delivered_by: self.delivered_by,
            seq: self.seq,
            first_seen_ms: self.first_seen_ms,
            content_present: self.content_present,
            announced: self.announced@.to_set(),
            next_attempt_ms: self.next_attempt_ms,
            attempts: self.attempts,
        }
    }
}

/// Notes that `ns` is announced. Returns whether it was before.
fn announce(announced: &mut Vec<NamespaceId>, ns: NamespaceId) -> (r: bool)
    ensures
        final(announced)@.to_set() == old(announced)@.to_set().insert(ns),
        r == old(announced)@.to_set().contains(ns),
{
    let ghost before = announced@;
    let mut i: usize = 0;
    while i < announced.len()
        invariant
            i <= announced@.len(),
            announced@ == before,
            forall|k: int| 0 <= k < i ==> #[trigger] before[k] != ns,
        decreases announced@.len() - i,
    {
        if same_id(&announced[i], &ns) {
            assert(before.contains(ns));
            assert(before.to_set().insert(ns) =~= before.to_set());
            return true;
        }
        i = i + 1;
    }
    announced.push(ns);
    proof {
        before.lemma_push_to_set_commute(ns);
    }
    false
}

/// A record that a peer has just delivered.
#[derive(Debug)]
pub struct Arrival {
    pub namespace: NamespaceId,
    pub hash: ContentHash,
    pub author: Vec<u8>,
    pub seq: u64,
    pub delivered_by: Id,
}

impl View for Arrival {
    type V = ArrivalView;

    open spec fn view(&self) -> ArrivalView {
        ArrivalView {
            namespace: self.namespace,
            hash: self.hash,
            author: self.author@,
            seq: self.seq,
            delivered_by: self.delivered_by,
        }
    }
}

impl Arrival {
    /// Reads a record's key.
    pub fn new(namespace: NamespaceId, hash: ContentHash, key: &[u8], delivered_by: Id) -> (r: Self)
        ensures
            r@ == (ArrivalView {
                namespace,
                hash,
                author: key_author(key@),
                seq: key_seq(key@) as u64,
                delivered_by,
            }),
    {
        let (author, seq) = decode_author_seq(key);
        Arrival { namespace, hash, author, seq, delivered_by }
    }
}

/// Subscribers are to be woken for an entry.
#[derive(Debug)]
pub struct Wake {
    pub hash: ContentHash,
    pub namespace: NamespaceId,
    pub author: Vec<u8>,
    pub seq: u64,
    /// Whether the entry is announced without its content.
    pub degraded: bool,
}

impl View for Wake {
    type V = WakeView;

    open spec fn view(&self) -> WakeView {
        WakeView {
            hash: self.hash,
            namespace: self.namespace,
            author: self.author@,
            seq: self.seq,
            degraded: self.degraded,
        }
    }
}

/// The view of an optional wake.
pub open spec fn wake_view(wake: Option<Wake>) -> Option<WakeView> {
    match wake {
        Some(w) => Some(w@),
        None => None,
    }
}

/// An entry that is still missing its content or its wake.
#[derive(Debug)]
pub struct Outstanding {
    pub hash: ContentHash,
    /// Whether the next fetch is due.
    pub due: bool,
    /// Who may have the content.
    pub sources: Vec<Id>,
}

impl Outstanding {
    /// Whether this says of `entry` what holds of it at `now`.
    pub open spec fn describes(self, entry: EntryView, now: u64) -> bool {
        &&& self.due == (now >= entry.next_attempt_ms)
        &&& self.sources@.map_values(|id: Id| id@) == sources(
            entry.delivered_by@,
            entry.author,
            is_endpoint_id(entry.author),
        )
    }

    /// Whether to try a fetch now, given whether the local store has the content already.
    pub fn fetch_now(&self, present: bool) -> (r: bool)
        ensures
            r == (self.due && !present),
    {
        self.due && !present
    }
}

/// The always-on, ciphertext-blind stash node, but for its connections.
#[derive(Debug)]
pub struct StashNode {
    registry: NamespaceRegistry,
    retention: RetentionPolicy,
    content: ContentIndex,
    entries: Table<TrackedEntry>,
}

impl View for StashNode {
    type V = NodeView;

    closed spec fn view(&self) -> NodeView {
        NodeView {
            registry: self.registry@,
            window: self.retention@,
            content: self.content@,
            entries: self.entries@.map_values(|entry: TrackedEntry| entry@),
        }
    }
}

impl StashNode {
    /// Every part is well-formed, and they agree with each other.
    pub closed spec fn wf(&self) -> bool {
        &&& self.registry.wf()
        &&& self.content.wf()
        &&& self.entries.wf()
        &&& self@.consistent()
    }

    /// A well-formed node is consistent.
    pub proof fn lemma_consistent(&self)
        requires
            self.wf(),
        ensures
            self@.consistent(),
    {
    }

    /// A node without grants.
    pub fn new(retention: RetentionPolicy) -> (r: Self)
        ensures
            r.wf(),
            r@.registry == RegistryView::empty(),
            r@.window == retention@,
            r@.content == ContentView::empty(),
            r@.entries == Map::<ContentHash, EntryView>::empty(),
    {
        let r = StashNode {
            registry: NamespaceRegistry::new(),
            retention,
            content: ContentIndex::new(),
            entries: Table::new(),
        };
        proof {
            assert(r@.entries =~= Map::<ContentHash, EntryView>::empty());
            assert(r@.entries.dom() =~= r@.content.state.dom());
            r.registry.lemma_consistent();
            r.content.lemma_consistent();
        }
        r
    }

    /// How many tracked hashes are still missing their bytes, and how many are tracked.
    pub fn content_stats(&self) -> (r: (usize, usize))
        requires
            self.wf(),
        ensures
            r.0 == self@.content.missing().len(),
            r.1 == self@.content.state.dom().len(),
    {
        (self.content.missing_count(), self.content.tracked_count())
    }

    /// Records a grant and, if there is one, a wake subscription. Returns whether the namespace is
    /// new, so that the caller starts watching it once.
    pub fn register(&mut self, ns: NamespaceId, sub: Option<PushSubscription>) -> (r: bool)
        requires
            old(self).wf(),
        ensures
            final(self).wf(),
            final(self)@ == (NodeView {
                registry: old(self)@.registry.after_register(
                    ns,
                    match sub {
                        Some(s) => Some(s@),
                        None => None,
                    },
                ),
                ..old(self)@
            }),
            r == !old(self)@.registry.known.contains(ns),
    {
        let ghost before = *self;
        let first = self.registry.register(ns, sub);
        proof {
            self.registry.lemma_consistent();
            assert(before@.registry.known.subset_of(self@.registry.known));
        }
        first
    }

    /// Drops a device's wake subscription. Returns whether it was there.
    pub fn unsubscribe(&mut self, ns: &NamespaceId, sub: &PushSubscription) -> (r: bool)
        requires
            old(self).wf(),
        ensures
            final(self).wf(),
            final(self)@ == (NodeView {
                registry: old(self)@.registry.after_unsubscribe(*ns, sub@),
                ..old(self)@
            }),
            r == old(self)@.registry.subscriptions.contains((*ns, sub@)),
    {
        let removed = self.registry.unsubscribe(ns, sub);
        proof {
            self.registry.lemma_consistent();
        }
        removed
    }

    /// Whether a device has granted `ns`.
    pub fn is_known(&self, ns: &NamespaceId) -> (r: bool)
        requires
            self.wf(),
        ensures
            r == self@.registry.known.contains(*ns),
    {
        self.registry.is_known(ns)
    }

    /// Every granted namespace, each once.
    pub fn known_namespaces(&self) -> (r: Vec<NamespaceId>)
        requires
            self.wf(),
        ensures
            r@.no_duplicates(),
            r@.to_set() == self@.registry.known,
    {
        self.registry.known_namespaces()
    }

    /// Every hash that the blob store must keep, each once.
    pub fn referenced(&self) -> (r: Vec<ContentHash>)
        requires
            self.wf(),
        ensures
            r@.no_duplicates(),
            r@.to_set() == self@.content.state.dom(),
    {
        self.content.referenced()
    }

    /// A record arrived in a granted namespace. Its hash is protected and counts as missing until
    /// its bytes land. An entry that is already tracked keeps its backoff and its wake.
    pub fn arrived(&mut self, arrival: &Arrival, now: u64)
        requires
            old(self).wf(),
            old(self)@.registry.known.contains(arrival.namespace),
        ensures
            final(self).wf(),
            final(self)@ == old(self)@.after_arrival(arrival@, now),
    {
        let ghost before = *self;
        self.content.want(arrival.namespace, arrival.hash);
        if !self.entries.contains(&arrival.hash) {
            let entry = TrackedEntry {
                namespace: arrival.namespace,
                author: arrival.author.clone(),
                delivered_by: arrival.delivered_by,
                seq: arrival.seq,
                first_seen_ms: now,
                content_present: false,
                announced: Vec::new(),
                next_attempt_ms: 0,
                attempts: 0,
            };
            assert(entry@.author =~= arrival.author@);
            assert(entry@.announced =~= Set::<NamespaceId>::empty());
            self.entries.insert(arrival.hash, entry);
        }
        proof {
            assert(self@ =~= before@.after_arrival(arrival@, now));
            lemma_arrival_consistent(before@, arrival@, now);
        }
    }

    /// The local store was asked for the bytes of an arrival. Where they are present, the hash can be
    /// served, and the subscribers of the arrival's namespace are due a wake unless they had one. An
    /// entry that is tracked for another namespace keeps its own wake.
    pub fn arrival_checked(&mut self, arrival: &Arrival, present: bool) -> (r: Option<Wake>)
        requires
            old(self).wf(),
        ensures
            final(self).wf(),
            present ==> final(self)@ == old(self)@.after_found(
                arrival.namespace,
                arrival.hash,
            ) && wake_view(r)
                == old(self)@.arrival_wake(arrival@),
            !present ==> final(self)@ == old(self)@ && r is None,
    {
        if !present {
            return None;
        }
        let ghost before = *self;
        match self.entries.remove(&arrival.hash) {
            Some(entry) => {
                assert(before@.entries[arrival.hash] == entry@);
                let mut entry = entry;
                let was_woken = announce(&mut entry.announced, arrival.namespace);
                if same_id(&entry.namespace, &arrival.namespace) {
                    entry.content_present = true;
                }
                self.entries.insert(arrival.hash, entry);
                self.content.mark_present(arrival.hash);
                proof {
                    assert(self@ =~= before@.after_found(arrival.namespace, arrival.hash));
                    lemma_found_consistent(before@, arrival.namespace, arrival.hash);
                }
                if was_woken {
                    None
                } else {
                    let author = arrival.author.clone();
                    assert(author@ =~= arrival.author@);
                    Some(
                        Wake {
                            hash: arrival.hash,
                            namespace: arrival.namespace,
                            author,
                            seq: arrival.seq,
                            degraded: false,
                        },
                    )
                }
            },
            None => {
                assert(self@ =~= before@);
                None
            },
        }
    }

    /// A settle pass over `hash` ended: `present` says whether its bytes are in the local store
    /// now, `due` whether a fetch was due. Returns the wake that is to be sent; wakes fire once,
    /// fetching goes on.
    pub fn settle(&mut self, hash: ContentHash, due: bool, present: bool, now: u64) -> (r: Option<Wake>)
        requires
            old(self).wf(),
            now + BACKOFF_CEILING_MS <= u64::MAX,
        ensures
            final(self).wf(),
            final(self)@ == old(self)@.after_settle(hash, due, present, now),
            wake_view(r) == old(self)@.settle_wake(hash, present, now),
    {
        let ghost before = *self;
        match self.entries.remove(&hash) {
            Some(entry) => {
                assert(before@.entries[hash] == entry@);
                let overdue = now >= entry.first_seen_ms && now - entry.first_seen_ms
                    >= WAKE_FALLBACK_MS;
                let mut entry = entry;
                let woken = if present || overdue {
                    announce(&mut entry.announced, entry.namespace)
                } else {
                    true
                };
                let wake = if !woken {
                    let author = entry.author.clone();
                    assert(author@ =~= entry.author@);
                    Some(
                        Wake {
                            hash,
                            namespace: entry.namespace,
                            author,
                            seq: entry.seq,
                            degraded: !present,
                        },
                    )
                } else {
                    None
                };
                if present {
                    entry.content_present = true;
                } else if due {
                    if entry.attempts < u32::MAX {
                        entry.attempts = entry.attempts + 1;
                    }
                    entry.next_attempt_ms = now + backoff_ms(entry.attempts);
                }
                self.entries.insert(hash, entry);
                if present {
                    self.content.mark_present(hash);
                }
                proof {
                    assert(self@ =~= before@.after_settle(hash, due, present, now));
                    lemma_settle_consistent(before@, hash, due, present, now);
                }
                wake
            },
            None => {
                assert(self@ =~= before@);
                None
            },
        }
    }

    /// What the settle loop still has to go through, each once: whatever is missing its content or
    /// its wake.
    pub fn outstanding(&self, now: u64) -> (r: Vec<Outstanding>)
        requires
            self.wf(),
        ensures
            r@.map_values(|o: Outstanding| o.hash).no_duplicates(),
            r@.map_values(|o: Outstanding| o.hash).to_set() == self@.pending(),
            forall|i: int|
                0 <= i < r@.len() ==> (#[trigger] r@[i]).describes(
                    self@.entries[r@[i].hash],
                    now,
                ),
    {
        let mut out: Vec<Outstanding> = Vec::new();
        let total = self.entries.len();
        let ghost keys = self.entries.key_order();
        let ghost hash_of = |o: Outstanding| o.hash;
        proof {
            self.entries.lemma_key_order();
        }
        let mut i: usize = 0;
        while i < total
            invariant
                self.wf(),
                keys == self.entries.key_order(),
                keys.no_duplicates(),
                total == keys.len(),
                i <= total,
                hash_of == (|o: Outstanding| o.hash),
                out@.map_values(hash_of).no_duplicates(),
                forall|hash: ContentHash| #[trigger]
                    out@.map_values(hash_of).contains(hash) <==> keys.take(i as int).contains(hash)
                        && self@.pending().contains(hash),
                forall|k: int|
                    0 <= k < out@.len() ==> (#[trigger] out@[k]).describes(
                        self@.entries[out@[k].hash],
                        now,
                    ),
            decreases total - i,
        {
            let (hash, entry) = self.entries.row(i);
            let ghost seen = keys.take(i as int);
            let ghost before = out@.map_values(hash_of);
            proof {
                assert(keys.take(i + 1) =~= seen.push(*hash));
                assert(!seen.contains(*hash));
                assert(self@.entries.contains_key(*hash));
                assert(self@.entries[*hash] == entry@);
            }
            if !entry.content_present {
                let item = Outstanding {
                    hash: *hash,
                    due: now >= entry.next_attempt_ms,
                    sources: fetch_sources(entry.delivered_by, &entry.author),
                };
                assert(item.describes(self@.entries[*hash], now));
                out.push(item);
                assert(out@.map_values(hash_of) =~= before.push(*hash));
                assert(!before.contains(*hash));
            }
            assert forall|h: ContentHash| #[trigger]
                out@.map_values(hash_of).contains(h) <==> keys.take(i + 1).contains(h)
                    && self@.pending().contains(h) by {
                vstd::seq_lib::lemma_seq_contains_after_push(seen, *hash, h);
                vstd::seq_lib::lemma_seq_contains_after_push(before, *hash, h);
                assert(before.contains(h) <==> seen.contains(h) && self@.pending().contains(
                    h,
                ));
            }
            i = i + 1;
        }
        proof {
            self.entries.lemma_key_order();
            assert(keys.take(keys.len() as int) =~= keys);
            assert forall|h: ContentHash| self@.pending().contains(h) implies keys.contains(
                h,
            ) by {
                assert(self@.entries.contains_key(h));
                assert(keys.to_set().contains(h));
            }
            assert(out@.map_values(hash_of).to_set() =~= self@.pending());
        }
        out
    }

    /// Drops one reference, and what it was the last to name.
    fn drop_reference(&mut self, ns: &NamespaceId, hash: &ContentHash)
        requires
            old(self).wf(),
        ensures
            final(self).wf(),
            final(self)@ == old(self)@.keeping(old(self)@.content.references.remove((*ns, *hash))),
            final(self).retention == old(self).retention,
    {
        let ghost before = *self;
        let last = self.content.forget(ns, hash);
        if last {
            let _ = self.entries.remove(hash);
        }
        proof {
            lemma_keeping_one_less(before@, *ns, *hash);
            assert(self@ =~= before@.keeping(before@.content.references.remove((*ns, *hash))));
            lemma_keeping_consistent(before@, before@.content.references.remove((*ns, *hash)));
        }
    }

    /// One retention sweep: stops holding the content of entries that are older than the window.
    /// `listings` are the entries of the granted namespaces. A blob goes only when the last entry
    /// that references it has expired, and its fetch is retried until then. Returns the number of
    /// blobs released.
    pub fn prune_once(&mut self, listings: &Vec<Listing>, now: u64) -> (r: u64)
        requires
            old(self).wf(),
        ensures
            final(self).wf(),
            final(self)@ == old(self)@.after_prune(listings@, now),
            r == old(self)@.content.state.dom().len() - final(self)@.content.state.dom().len(),
    {
        let ghost before = *self;
        let ghost all = before@.content.references;
        let ghost window = before@.window;
        let held = self.content.tracked_count();
        let ghost mut gone: Set<(NamespaceId, ContentHash)> = Set::empty();
        proof {
            assert(all.difference(gone) =~= all);
            lemma_keeping_all(before@);
        }
        let mut i: usize = 0;
        while i < listings.len()
            invariant
                i <= listings@.len(),
                self.wf(),
                before@.consistent(),
                self.retention == before.retention,
                all == before@.content.references,
                window == before@.window,
                window == before.retention@,
                self@ == before@.keeping(all.difference(gone)),
                forall|p: (NamespaceId, ContentHash)| #[trigger]
                    gone.contains(p) <==> none_fresh(listings@, p, window, now as nat) && listed_in(
                        listings@,
                        p,
                        i as int,
                    ),
            decreases listings@.len() - i,
        {
            let listing = &listings[i];
            let ghost done = gone;
            let mut j: usize = 0;
            while j < listing.entries.len()
                invariant
                    i < listings@.len(),
                    *listing == listings@[i as int],
                    j <= listing.entries@.len(),
                    self.wf(),
                    before@.consistent(),
                    self.retention == before.retention,
                    all == before@.content.references,
                    window == before@.window,
                    window == before.retention@,
                    self@ == before@.keeping(all.difference(gone)),
                    forall|p: (NamespaceId, ContentHash)| #[trigger]
                        gone.contains(p) <==> done.contains(p) || (p.0 == listing.namespace
                            && none_fresh(listings@, p, window, now as nat) && exists|k: int|
                            0 <= k < j && (#[trigger] listing.entries@[k]).hash == p.1),
                decreases listing.entries@.len() - j,
            {
                let entry = &listing.entries[j];
                if nowhere_fresh(
                    listings,
                    &listing.namespace,
                    &entry.hash,
                    &self.retention,
                    now,
                ) {
                    let ghost pair = (listing.namespace, entry.hash);
                    let ghost kept = all.difference(gone);
                    self.drop_reference(&listing.namespace, &entry.hash);
                    proof {
                        lemma_keeping_less(before@, kept, kept.remove(pair));
                        gone = gone.insert(pair);
                        assert(kept.remove(pair) =~= all.difference(gone));
                        assert(listing.entries@[j as int].hash == pair.1);
                        assert(none_fresh(listings@, pair, window, now as nat));
                    }
                }
                j = j + 1;
            }
            proof {
                assert forall|p: (NamespaceId, ContentHash)| #[trigger]
                    gone.contains(p) <==> none_fresh(listings@, p, window, now as nat) && listed_in(
                        listings@,
                        p,
                        i + 1,
                    ) by {
                    assert(listings@[i as int] == *listing);
                    if listed_in(listings@, p, i as int) {
                        assert(listed_in(listings@, p, i + 1));
                    }
                    if p.0 == listing.namespace && lists(listing.entries@, p.1) {
                        assert(listed_in(listings@, p, i + 1));
                    }
                }
            }
            i = i + 1;
        }
        let left = self.content.tracked_count();
        proof {
            assert(all.difference(gone) =~= all.filter(
                |reference: (NamespaceId, ContentHash)|
                    !retired(listings@, reference, window, now as nat),
            ));
            before.content.lemma_consistent();
            vstd::set_lib::lemma_len_subset(
                self@.content.state.dom(),
                before@.content.state.dom(),
            );
        }
        (held - left) as u64
    }
}

/// A settle pass: it goes through what was outstanding when it started, one hash at a time, and
/// collects the wakes that are due. The caller looks for the bytes of the current hash, fetches
/// them if it is time to, and hands the outcome back; the node may change in between.
#[derive(Debug)]
pub struct SettlePass {
    now: u64,
    items: Vec<Outstanding>,
    next: usize,
    wakes: Vec<Wake>,
}

/// What a [`SettlePass`] holds.
#[verifier::ext_equal]
pub struct PassView {
    /// The time of the pass.
    pub now: u64,
    /// The hashes that it goes through, each with whether a fetch is due.
    pub items: Seq<(ContentHash, bool)>,
    /// Whom to ask for the content of each, in order.
    pub sources: Seq<Seq<Seq<u8>>>,
    /// How many of them are done.
    pub done: nat,
    /// The wakes so far.
    pub wakes: Seq<WakeView>,
}

impl View for SettlePass {
    type V = PassView;

    closed spec fn view(&self) -> PassView {
        PassView {
            now: self.now,
            items: self.items@.map_values(|o: Outstanding| (o.hash, o.due)),
            sources: self.items@.map_values(
                |o: Outstanding| o.sources@.map_values(|id: Id| id@),
            ),
            done: self.next as nat,
            wakes: self.wakes@.map_values(|w: Wake| w@),
        }
    }
}

/// The hashes of `wakes`.
pub open spec fn wake_hashes(wakes: Seq<WakeView>) -> Seq<ContentHash> {
    wakes.map_values(|w: WakeView| w.hash)
}

/// The hashes of the items of a pass.
pub open spec fn item_hashes(items: Seq<(ContentHash, bool)>) -> Seq<ContentHash> {
    items.map_values(|item: (ContentHash, bool)| item.0)
}

/// `wakes`, and one more if there is one.
pub open spec fn with_wake(wakes: Seq<WakeView>, wake: Option<WakeView>) -> Seq<WakeView> {
    match wake {
        Some(w) => wakes.push(w),
        None => wakes,
    }
}

impl SettlePass {
    /// No hash is gone through twice, and every wake so far is for another hash that is done.
    pub closed spec fn wf(&self) -> bool {
        &&& self.now + BACKOFF_CEILING_MS <= u64::MAX
        &&& self.next <= self.items@.len()
        &&& item_hashes(self@.items).no_duplicates()
        &&& wake_hashes(self@.wakes).no_duplicates()
        &&& forall|i: int|
            0 <= i < self@.wakes.len() ==> item_hashes(self@.items).take(self.next as int).contains(
                (#[trigger] self@.wakes[i]).hash,
            )
    }

    /// Starts a pass over everything that is missing its content or its wake.
    pub fn start(node: &StashNode, now: u64) -> (r: Self)
        requires
            node.wf(),
            now + BACKOFF_CEILING_MS <= u64::MAX,
        ensures
            r.wf(),
            r@.now == now,
            r@.done == 0,
            r@.wakes.len() == 0,
            item_hashes(r@.items).no_duplicates(),
            item_hashes(r@.items).to_set() == node@.pending(),
            forall|i: int|
                0 <= i < r@.items.len() ==> (#[trigger] r@.items[i]).1 == (now
                    >= node@.entries[r@.items[i].0].next_attempt_ms),
            r@.sources.len() == r@.items.len(),
            forall|i: int|
                0 <= i < r@.items.len() ==> #[trigger] r@.sources[i] == sources(
                    node@.entries[r@.items[i].0].delivered_by@,
                    node@.entries[r@.items[i].0].author,
                    is_endpoint_id(node@.entries[r@.items[i].0].author),
                ),
    {
        let items = node.outstanding(now);
        let r = SettlePass { now, items, next: 0, wakes: Vec::new() };
        proof {
            assert(item_hashes(r@.items) =~= items@.map_values(|o: Outstanding| o.hash));
            assert(wake_hashes(r@.wakes) =~= Seq::<ContentHash>::empty());
            assert forall|i: int| 0 <= i < r@.items.len() implies (#[trigger] r@.items[i]).1 == (now
                >= node@.entries[r@.items[i].0].next_attempt_ms) by {
                assert(items@[i].describes(node@.entries[items@[i].hash], now));
            }
            assert forall|i: int| 0 <= i < r@.items.len() implies #[trigger] r@.sources[i]
                == sources(
                node@.entries[r@.items[i].0].delivered_by@,
                node@.entries[r@.items[i].0].author,
                is_endpoint_id(node@.entries[r@.items[i].0].author),
            ) by {
                assert(items@[i].describes(node@.entries[items@[i].hash], now));
            }
        }
        r
    }

    /// What to look for next; `None` at the end of the pass.
    pub fn current(&self) -> (r: Option<&Outstanding>)
        requires
            self.wf(),
        ensures
            match r {
                Some(item) => self@.done < self@.items.len() && (item.hash, item.due)
                    == self@.items[self@.done as int] && item.sources@.map_values(|id: Id| id@)
                    == self@.sources[self@.done as int],
                None => self@.done == self@.items.len(),
            },
    {
        if self.next < self.items.len() {
            Some(&self.items[self.next])
        } else {
            None
        }
    }

    /// The current hash is done: `present` says whether its bytes are in the local store now.
    pub fn settled(&mut self, node: &mut StashNode, present: bool)
        requires
            old(self).wf(),
            old(node).wf(),
            old(self)@.done < old(self)@.items.len(),
        ensures
            final(self).wf(),
            final(node).wf(),
            ({
                let item = old(self)@.items[old(self)@.done as int];
                let now = old(self)@.now;
                &&& final(node)@ == old(node)@.after_settle(item.0, item.1, present, now)
                &&& final(self)@ == (PassView {
                    done: old(self)@.done + 1,
                    wakes: with_wake(
                        old(self)@.wakes,
                        old(node)@.settle_wake(item.0, present, now),
                    ),
                    ..old(self)@
                })
            }),
    {
        let ghost before = *self;
        let hash = self.items[self.next].hash;
        let due = self.items[self.next].due;
        let wake = node.settle(hash, due, present, self.now);
        let ghost given = wake_view(wake);
        assert(self.next < self.items.len());
        self.next = self.next + 1;
        match wake {
            Some(w) => {
                self.wakes.push(w);
            },
            None => {},
        }
        proof {
            let hashes = item_hashes(before@.items);
            let n = before.next as int;
            assert(hashes[n] == hash);
            assert(hashes.take(n + 1) =~= hashes.take(n).push(hash));
            assert(self@.wakes =~= with_wake(before@.wakes, given));
            assert(given matches Some(w) ==> w.hash == hash);
            assert(!hashes.take(n).contains(hash));
            assert forall|i: int| 0 <= i < self@.wakes.len() implies hashes.take(n + 1).contains(
                (#[trigger] self@.wakes[i]).hash,
            ) by {
                vstd::seq_lib::lemma_seq_contains_after_push(
                    hashes.take(n),
                    hash,
                    self@.wakes[i].hash,
                );
                if i < before@.wakes.len() {
                    assert(self@.wakes[i] == before@.wakes[i]);
                }
            }
            assert(wake_hashes(self@.wakes).no_duplicates()) by {
                match given {
                    Some(w) => {
                        let old_hashes = wake_hashes(before@.wakes);
                        assert(wake_hashes(self@.wakes) =~= old_hashes.push(hash));
                        assert(!old_hashes.contains(hash)) by {
                            if old_hashes.contains(hash) {
                                let i = old_hashes.index_of(hash);
                                assert(before@.wakes[i].hash == hash);
                            }
                        }
                    },
                    None => {
                        assert(wake_hashes(self@.wakes) =~= wake_hashes(before@.wakes));
                    },
                }
            }
            assert(self@.items =~= before@.items);
            assert(self@.sources =~= before@.sources);
        }
    }

    /// The wakes of the pass: no hash is among them twice.
    pub fn finish(self) -> (r: Vec<Wake>)
        requires
            self.wf(),
        ensures
            r@.map_values(|w: Wake| w@) == self@.wakes,
            wake_hashes(self@.wakes).no_duplicates(),
    {
        self.wakes
    }
}

/// Whether one of the first `n` listings is of a reference's namespace and holds its hash.
spec fn listed_in(listings: Seq<Listing>, reference: (NamespaceId, ContentHash), n: int) -> bool {
    exists|i: int|
        0 <= i < n && (#[trigger] listings[i]).namespace == reference.0 && lists(
            listings[i].entries@,
            reference.1,
        )
}

/// What is to be done about a wake once the delivery service has spoken.
#[derive(Debug)]
pub enum WakePlan {
    /// Wake these subscribers.
    Push(Vec<PushSubscription>),
    /// Nobody has asked to be woken.
    Nobody,
    /// The delivery service refused the entry.
    Refused(String),
}

/// Whether `plan` is what a verdict on an entry of `ns` calls for: everyone who asked is woken,
/// once, if the entry is accepted; nobody if it is refused.
pub open spec fn plan_follows(
    plan: WakePlan,
    registry: RegistryView,
    ns: NamespaceId,
    verdict: Admission,
) -> bool {
    match plan {
        WakePlan::Push(targets) => {
            &&& verdict is Accept
            &&& targets@.len() > 0
            &&& targets@.map_values(|s: PushSubscription| s@).no_duplicates()
            &&& targets@.map_values(|s: PushSubscription| s@).to_set() == registry.targets(ns)
        },
        WakePlan::Nobody => verdict is Accept && registry.targets(ns) == Set::<
            SubscriptionView,
        >::empty(),
        WakePlan::Refused(reason) => verdict == Admission::Reject(reason),
    }
}

/// The view of optional bytes.
pub open spec fn bytes_view(bytes: Option<Vec<u8>>) -> Option<Seq<u8>> {
    match bytes {
        Some(b) => Some(b@),
        None => None,
    }
}

/// The envelope that is put before the delivery service for a wake: the content if it is there,
/// nothing if the entry is announced without it.
pub open spec fn wake_envelope(wake: WakeView, content: Option<Seq<u8>>) -> EnvelopeView {
    EnvelopeView {
        namespace: wake.namespace,
        author: wake.author,
        seq: wake.seq,
        bytes: match content {
            Some(bytes) if !wake.degraded => bytes,
            _ => Seq::empty(),
        },
    }
}

impl StashNode {
    /// Who is to be woken for an entry of `ns`, given the delivery service's verdict on it.
    pub fn plan_wake(&self, ns: &NamespaceId, verdict: Admission) -> (r: WakePlan)
        requires
            self.wf(),
        ensures
            plan_follows(r, self@.registry, *ns, verdict),
    {
        match verdict {
            Admission::Accept => {
                let targets = self.registry.wake_targets(ns);
                let ghost views = targets@.map_values(|s: PushSubscription| s@);
                if targets.len() == 0 {
                    assert(views.to_set() =~= Set::<SubscriptionView>::empty());
                    WakePlan::Nobody
                } else {
                    WakePlan::Push(targets)
                }
            },
            Admission::Reject(reason) => WakePlan::Refused(reason),
        }
    }

    /// Puts an entry before the delivery service and, if it is accepted, says whom to wake.
    /// `content` is what was read back from the local store.
    pub fn wake_for<D: DeliveryService>(&self, delivery: &D, wake: &Wake, content: Option<Vec<u8>>) -> (r:
        WakePlan)
        requires
            self.wf(),
        ensures
            exists|envelope: EnvelopeRef<'_>, verdict: Admission|
                #![trigger call_ensures(D::admission, (delivery, &envelope), verdict)]
                envelope@ == wake_envelope(wake@, bytes_view(content)) && call_ensures(
                    D::admission,
                    (delivery, &envelope),
                    verdict,
                ) && plan_follows(r, self@.registry, wake.namespace, verdict),
    {
        let ghost expected = wake_envelope(wake@, bytes_view(content));
        let bytes: Vec<u8> = match content {
            Some(bytes) if !wake.degraded => bytes,
            _ => Vec::new(),
        };
        let envelope = EnvelopeRef {
            namespace: &wake.namespace,
            author: wake.author.as_slice(),
            seq: wake.seq,
            bytes: bytes.as_slice(),
        };
        assert(envelope@ =~= expected);
        let verdict = delivery.admission(&envelope);
        assert(call_ensures(D::admission, (delivery, &envelope), verdict));
        self.plan_wake(&wake.namespace, verdict)
    }
}

/// The delivery service to start with: every envelope passes.
pub fn default_delivery() -> (r: Arc<PassthroughDelivery>)
    ensures
        *r == PassthroughDelivery,
{
    Arc::new(PassthroughDelivery)
}

/// The waker to start with: nobody is woken.
pub fn default_waker() -> (r: Arc<NoopWaker>)
    ensures
        *r == NoopWaker,
{
    Arc::new(NoopWaker)
}

/// Whether every entry of `hash` among `entries` has expired.
fn only_expired(
    entries: &Vec<DocEntry>,
    hash: &ContentHash,
    retention: &RetentionPolicy,
    now: u64,
) -> (r: bool)
    ensures
        r == all_expired(entries@, *hash, retention@, now as nat),
{
    let mut i: usize = 0;
    while i < entries.len()
        invariant
            i <= entries@.len(),
            forall|k: int|
                0 <= k < i && (#[trigger] entries@[k]).hash == *hash ==> entries@[k].expired(
                    retention@,
                    now as nat,
                ),
        decreases entries@.len() - i,
    {
        if same_id(&entries[i].hash, hash) && !retention.is_expired(
            entry_written_ms(&entries[i]),
            now,
        ) {
            assert(!entries@[i as int].expired(retention@, now as nat));
            return false;
        }
        i = i + 1;
    }
    true
}

/// Whether no listing of `ns` holds `hash` in an entry that has not expired.
fn nowhere_fresh(
    listings: &Vec<Listing>,
    ns: &NamespaceId,
    hash: &ContentHash,
    retention: &RetentionPolicy,
    now: u64,
) -> (r: bool)
    ensures
        r == none_fresh(listings@, (*ns, *hash), retention@, now as nat),
{
    let mut i: usize = 0;
    while i < listings.len()
        invariant
            i <= listings@.len(),
            forall|k: int|
                0 <= k < i && (#[trigger] listings@[k]).namespace == *ns ==> all_expired(
                    listings@[k].entries@,
                    *hash,
                    retention@,
                    now as nat,
                ),
        decreases listings@.len() - i,
    {
        if same_id(&listings[i].namespace, ns) && !only_expired(
            &listings[i].entries,
            hash,
            retention,
            now,
        ) {
            assert(!all_expired(listings@[i as int].entries@, *hash, retention@, now as nat));
            return false;
        }
        i = i + 1;
    }
    true
}

/// Law: an arrival is read as its record came, with the author and the number of its key.
pub proof fn law_arrival_is_read_from_its_record(
    namespace: NamespaceId,
    hash: ContentHash,
    key: &[u8],
    delivered_by: Id,
    decoded: (Vec<u8>, u64),
    r: Arrival,
)
    requires
        call_ensures(Arrival::new, (namespace, hash, key, delivered_by), r),
        call_ensures(decode_author_seq, (key,), decoded),
    ensures
        r.namespace == namespace,
        r.hash == hash,
        r.delivered_by == delivered_by,
        r.author@ == decoded.0@,
        r.seq == decoded.1,
{
    law_author_and_number_are_those_of_the_key(key, decoded);
}

/// Law: a settle pass goes through the held entries that are not settled, each once. A fetch is due
/// for one exactly when the time for it has come. The peer that delivered the record is asked first,
/// and its author second where that is another endpoint.
pub proof fn law_pass_goes_through_what_is_not_settled(
    node: StashNode,
    now: u64,
    pass: SettlePass,
    hash: ContentHash,
    i: int,
)
    requires
        node.wf(),
        call_ensures(SettlePass::start, (&node, now), pass),
    ensures
        pass@.now == now && pass@.done == 0 && pass@.wakes.len() == 0,
        (exists|k: int| 0 <= k < pass@.items.len() && (#[trigger] pass@.items[k]).0 == hash)
            <==> node@.entries.contains_key(hash) && !node@.entries[hash].content_present,
        0 <= i < pass@.items.len() ==> {
            let entry = node@.entries[pass@.items[i].0];
            let second = entry.author.len() == 32 && is_endpoint_id(entry.author) && entry.author
                != entry.delivered_by@;
            &&& pass@.items[i].1 <==> entry.next_attempt_ms <= now
            &&& pass@.sources[i].len() >= 1 && pass@.sources[i][0] == entry.delivered_by@
            &&& second ==> pass@.sources[i].len() == 2 && pass@.sources[i][1] == entry.author
            &&& !second ==> pass@.sources[i].len() == 1
            &&& forall|k: int|
                0 <= k < pass@.items.len() && k != i ==> (#[trigger] pass@.items[k]).0
                    != pass@.items[i].0
        },
{
    let hashes = item_hashes(pass@.items);
    assert(hashes.to_set().contains(hash) <==> node@.pending().contains(hash));
    if hashes.contains(hash) {
        let k = hashes.index_of(hash);
        assert(pass@.items[k].0 == hash);
    }
    if exists|k: int| 0 <= k < pass@.items.len() && (#[trigger] pass@.items[k]).0 == hash {
        let k = choose|k: int| 0 <= k < pass@.items.len() && (#[trigger] pass@.items[k]).0 == hash;
        assert(hashes[k] == hash);
        assert(hashes.contains(hash));
    }
    if 0 <= i < pass@.items.len() {
        assert(pass@.sources[i].len() >= 1);
        assert forall|k: int| 0 <= k < pass@.items.len() && k != i implies (
        #[trigger] pass@.items[k]).0 != pass@.items[i].0 by {
            assert(hashes[k] == pass@.items[k].0 && hashes[i] == pass@.items[i].0);
        }
    }
}

/// Law: what is outstanding is what is held and not settled, each once, with its own fetch time and
/// its own sources.
pub proof fn law_outstanding_is_what_is_not_settled(
    node: StashNode,
    now: u64,
    r: Vec<Outstanding>,
    hash: ContentHash,
    i: int,
)
    requires
        node.wf(),
        call_ensures(StashNode::outstanding, (&node, now), r),
    ensures
        (exists|k: int| 0 <= k < r@.len() && (#[trigger] r@[k]).hash == hash)
            <==> node@.entries.contains_key(hash) && !node@.entries[hash].content_present,
        0 <= i < r@.len() ==> {
            let entry = node@.entries[r@[i].hash];
            let second = entry.author.len() == 32 && is_endpoint_id(entry.author) && entry.author
                != entry.delivered_by@;
            &&& r@[i].due <==> entry.next_attempt_ms <= now
            &&& r@[i].sources@.len() >= 1 && r@[i].sources@[0]@ == entry.delivered_by@
            &&& second ==> r@[i].sources@.len() == 2 && r@[i].sources@[1]@ == entry.author
            &&& !second ==> r@[i].sources@.len() == 1
        },
{
    let hashes = r@.map_values(|o: Outstanding| o.hash);
    assert(hashes.to_set().contains(hash) <==> node@.pending().contains(hash));
    if hashes.contains(hash) {
        let k = hashes.index_of(hash);
        assert(r@[k].hash == hash);
    }
    if exists|k: int| 0 <= k < r@.len() && (#[trigger] r@[k]).hash == hash {
        let k = choose|k: int| 0 <= k < r@.len() && (#[trigger] r@[k]).hash == hash;
        assert(hashes[k] == hash);
        assert(hashes.contains(hash));
    }
    if 0 <= i < r@.len() {
        let entry = node@.entries[r@[i].hash];
        assert(r@[i].describes(entry, now));
        let views = r@[i].sources@.map_values(|id: Id| id@);
        assert(views.len() == r@[i].sources@.len());
        assert(views[0] == r@[i].sources@[0]@);
        if views.len() == 2 {
            assert(views[1] == r@[i].sources@[1]@);
        }
    }
}

/// Law: a fetch is tried exactly when it is due and the bytes are not there yet.
pub proof fn law_fetch_only_what_is_due_and_missing(item: Outstanding, present: bool, r: bool)
    requires
        call_ensures(Outstanding::fetch_now, (&item, present), r),
    ensures
        r <==> item.due && !present,
{
}

/// Law: an entry that is accepted wakes everyone who asked to be woken about its namespace, each
/// once, and nobody else; one that is refused wakes nobody, and the reason is passed on.
pub proof fn law_plan_wakes_everyone_who_asked(
    node: StashNode,
    ns: NamespaceId,
    verdict: Admission,
    plan: WakePlan,
    s: SubscriptionView,
)
    requires
        node.wf(),
        call_ensures(StashNode::plan_wake, (&node, &ns, verdict), plan),
    ensures
        verdict matches Admission::Reject(reason) ==> plan == WakePlan::Refused(reason),
        verdict is Accept ==> !(plan is Refused),
        verdict is Accept && node@.registry.subscriptions.contains((ns, s)) ==> (
        plan matches WakePlan::Push(targets) && exists|k: int|
            0 <= k < targets@.len() && (#[trigger] targets@[k])@ == s),
        plan matches WakePlan::Push(targets) ==> {
            &&& targets@.len() > 0
            &&& forall|k: int|
                0 <= k < targets@.len() ==> node@.registry.subscriptions.contains(
                    (ns, (#[trigger] targets@[k])@),
                )
            &&& forall|a: int, b: int|
                0 <= a < b < targets@.len() ==> (#[trigger] targets@[a])@ != (
                #[trigger] targets@[b])@
        },
{
    assert(node@.registry.subscriptions.contains((ns, s)) <==> node@.registry.targets(ns).contains(
        s,
    ));
    if let WakePlan::Push(targets) = plan {
        let views = targets@.map_values(|x: PushSubscription| x@);
        assert(views.to_set() == node@.registry.targets(ns));
        if node@.registry.targets(ns).contains(s) {
            assert(views.to_set().contains(s));
            let k = views.index_of(s);
            assert(targets@[k]@ == s);
        }
        assert forall|k: int| 0 <= k < targets@.len() implies node@.registry.subscriptions.contains(
            (ns, (#[trigger] targets@[k])@),
        ) by {
            assert(views[k] == targets@[k]@);
            assert(views.to_set().contains(views[k]));
            assert(node@.registry.targets(ns).contains(targets@[k]@));
        }
        assert forall|a: int, b: int| 0 <= a < b < targets@.len() implies (#[trigger] targets@[a])@
            != (#[trigger] targets@[b])@ by {
            assert(views[a] == targets@[a]@ && views[b] == targets@[b]@);
        }
    }
}

/// Law: the delivery service is shown the entry that the wake is for, with its content where the wake
/// says that it is there and it could be read, and without any bytes otherwise.
pub proof fn law_delivery_service_sees_the_entry(wake: WakeView, content: Option<Seq<u8>>)
    ensures
        wake_envelope(wake, content).namespace == wake.namespace,
        wake_envelope(wake, content).author == wake.author,
        wake_envelope(wake, content).seq == wake.seq,
        content matches Some(bytes) ==> (!wake.degraded ==> wake_envelope(wake, content).bytes
            == bytes),
        wake.degraded || content is None ==> wake_envelope(wake, content).bytes.len() == 0,
{
}

/// Law: the node answers from what it holds.
pub proof fn law_node_answers_from_what_it_holds(
    node: StashNode,
    ns: NamespaceId,
    hash: ContentHash,
    known: bool,
    namespaces: Vec<NamespaceId>,
    keep: Vec<ContentHash>,
    stats: (usize, usize),
)
    requires
        node.wf(),
        call_ensures(StashNode::is_known, (&node, &ns), known),
        call_ensures(StashNode::known_namespaces, (&node,), namespaces),
        call_ensures(StashNode::referenced, (&node,), keep),
        call_ensures(StashNode::content_stats, (&node,), stats),
    ensures
        known <==> node@.registry.known.contains(ns),
        namespaces@.contains(ns) <==> node@.registry.known.contains(ns),
        keep@.contains(hash) <==> exists|n: NamespaceId| #[trigger]
            node@.content.references.contains((n, hash)),
        keep@.contains(hash) <==> node@.entries.contains_key(hash),
        stats.0 == node@.content.missing().len(),
        stats.1 == keep@.len(),
{
    node.lemma_consistent();
    assert(namespaces@.to_set().contains(ns) <==> namespaces@.contains(ns));
    assert(keep@.to_set().contains(hash) <==> keep@.contains(hash));
    assert(node@.content.state.contains_key(hash) <==> node@.content.is_referenced(hash));
    keep@.unique_seq_to_set();
}

/// Law: a new node grants nothing, holds nothing and keeps the window that it was given.
pub proof fn law_new_node_is_empty(
    retention: RetentionPolicy,
    node: StashNode,
    ns: NamespaceId,
    hash: ContentHash,
)
    requires
        call_ensures(StashNode::new, (retention,), node),
    ensures
        node.wf(),
        node@.window == retention@,
        !node@.registry.known.contains(ns),
        !node@.entries.contains_key(hash),
        !node@.content.state.contains_key(hash),
{
}

/// Law: an entry is put before the delivery service as the wake names it, and the plan follows the
/// verdict on just that: the reason is passed on where it is refused, and everyone who asked about the
/// wake's namespace is woken where it is accepted.
pub proof fn law_wake_goes_by_the_verdict_on_its_entry<D: DeliveryService>(
    node: StashNode,
    delivery: D,
    wake: Wake,
    content: Option<Vec<u8>>,
    plan: WakePlan,
    s: SubscriptionView,
)
    requires
        node.wf(),
        call_ensures(StashNode::wake_for::<D>, (&node, &delivery, &wake, content), plan),
    ensures
        exists|envelope: EnvelopeRef<'_>, verdict: Admission|
            {
                &&& #[trigger] call_ensures(D::admission, (&delivery, &envelope), verdict)
                &&& *envelope.namespace == wake.namespace
                &&& envelope.author@ == wake.author@
                &&& envelope.seq == wake.seq
                &&& content matches Some(bytes) ==> (!wake.degraded ==> envelope.bytes@ == bytes@)
                &&& wake.degraded || content is None ==> envelope.bytes@.len() == 0
                &&& verdict matches Admission::Reject(reason) ==> plan == WakePlan::Refused(reason)
                &&& verdict is Accept ==> !(plan is Refused)
                &&& verdict is Accept && node@.registry.targets(wake.namespace).contains(s) ==> (
                plan matches WakePlan::Push(targets) && exists|k: int|
                    0 <= k < targets@.len() && (#[trigger] targets@[k])@ == s)
            },
{
    let (envelope, verdict) = choose|envelope: EnvelopeRef<'_>, verdict: Admission|
        #![trigger call_ensures(D::admission, (&delivery, &envelope), verdict)]
        envelope@ == wake_envelope(wake@, bytes_view(content)) && call_ensures(
            D::admission,
            (&delivery, &envelope),
            verdict,
        ) && plan_follows(plan, node@.registry, wake.namespace, verdict);
    assert(call_ensures(D::admission, (&delivery, &envelope), verdict));
    if let WakePlan::Push(targets) = plan {
        let views = targets@.map_values(|x: PushSubscription| x@);
        if node@.registry.targets(wake.namespace).contains(s) {
            assert(views.to_set().contains(s));
            let k = views.index_of(s);
            assert(targets@[k]@ == s);
        }
    }
}

/// Law: the loops keep their rhythm: four looks a second, twenty seconds for a fetch, and a
/// collection every five minutes.
pub proof fn law_loops_keep_their_rhythm()
    ensures
        SETTLE_INTERVAL_MS == 250,
        FETCH_TIMEOUT_SECS == 20,
        GC_INTERVAL_SECS == 300,
{
}

} // verus!
