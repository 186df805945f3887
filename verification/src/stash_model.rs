//! The stash node as a state machine: what each step does to the node's state, and what holds of
//! every state.

use crate::content::{
    lemma_mark_present_consistent, lemma_want_consistent, ContentHash, ContentView, State,
};
use crate::entry::{
    all_expired, backoff, law_backoff_grows_to_a_ceiling, lists, Listing, BACKOFF_BASE_MS,
    BACKOFF_CEILING_MS,
};
use crate::subscriptions::{NamespaceId, RegistryView, SubscriptionView};
use crate::table::Id;
use vstd::prelude::*;

verus! {

/// How long an entry may be without its content before subscribers are woken anyway, in
/// milliseconds.
pub const WAKE_FALLBACK_MS: u64 = 30_000;

/// What the node knows of a replicated entry.
#[verifier::ext_equal]
pub struct EntryView {
    /// The namespace that it arrived in.
    pub namespace: NamespaceId,
    /// Its author, as its key names it.
    pub author: Seq<u8>,
    /// The peer that delivered the record.
    pub delivered_by: Id,
    /// Its author's sequence number.
    pub seq: u64,
    /// When it arrived.
    pub first_seen_ms: u64,
    /// Whether its own settling is done: its bytes are in the local store, and it is announced in
    /// the namespace that it arrived in.
    pub content_present: bool,
    /// The namespaces whose subscribers have been woken for it.
    pub announced: Set<NamespaceId>,
    /// The earliest time for the next fetch.
    pub next_attempt_ms: u64,
    /// How many fetches in a row have failed.
    pub attempts: u32,
}

impl EntryView {
    /// Whether the subscribers of the namespace that it arrived in have been woken for it.
    pub open spec fn woken(self) -> bool {
        self.announced.contains(self.namespace)
    }
}

/// What an [`crate::node::Arrival`] holds.
#[verifier::ext_equal]
pub struct ArrivalView {
    pub namespace: NamespaceId,
    pub hash: ContentHash,
    pub author: Seq<u8>,
    pub seq: u64,
    pub delivered_by: Id,
}

/// What a [`crate::node::Wake`] holds.
#[verifier::ext_equal]
pub struct WakeView {
    pub hash: ContentHash,
    pub namespace: NamespaceId,
    pub author: Seq<u8>,
    pub seq: u64,
    pub degraded: bool,
}

/// The state of a [`crate::node::StashNode`].
#[verifier::ext_equal]
pub struct NodeView {
    /// Grants and wake targets.
    pub registry: RegistryView,
    /// The retention window in milliseconds.
    pub window: nat,
    /// What is referenced, and what has landed.
    pub content: ContentView,
    /// The entries behind the referenced hashes.
    pub entries: Map<ContentHash, EntryView>,
}

/// Whether an entry that arrived at `first_seen` has been without its content for too long.
pub open spec fn overdue(first_seen: u64, now: u64) -> bool {
    now - first_seen >= WAKE_FALLBACK_MS
}

/// The hashes that `references` name.
pub open spec fn named(references: Set<(NamespaceId, ContentHash)>) -> Set<ContentHash> {
    Set::new(
        |hash: ContentHash| exists|ns: NamespaceId| #[trigger] references.contains((ns, hash)),
    )
}

/// Whether `listings` show that all entries of a reference have expired: its namespace lists the
/// hash, and nowhere in an entry that has not expired.
pub open spec fn retired(
    listings: Seq<Listing>,
    reference: (NamespaceId, ContentHash),
    window: nat,
    now: nat,
) -> bool {
    &&& exists|i: int|
        0 <= i < listings.len() && (#[trigger] listings[i]).namespace == reference.0 && lists(
            listings[i].entries@,
            reference.1,
        )
    &&& none_fresh(listings, reference, window, now)
}

/// Whether no listing of a reference's namespace holds its hash in an entry that has not expired.
pub open spec fn none_fresh(
    listings: Seq<Listing>,
    reference: (NamespaceId, ContentHash),
    window: nat,
    now: nat,
) -> bool {
    forall|i: int|
        0 <= i < listings.len() && (#[trigger] listings[i]).namespace == reference.0 ==> all_expired(
            listings[i].entries@,
            reference.1,
            window,
            now,
        )
}

impl NodeView {
    /// What every reachable state satisfies: there is one tracked entry for each referenced hash;
    /// an entry that is settled has its content and has been announced; and nothing is held for a
    /// namespace that nobody has granted.
    pub open spec fn consistent(self) -> bool {
        &&& self.registry.consistent()
        &&& self.content.consistent()
        &&& self.entries.dom() == self.content.state.dom()
        &&& forall|hash: ContentHash| #[trigger]
            self.entries.contains_key(hash) ==> {
                &&& self.entries[hash].content_present ==> self.content.state[hash]
                    == State::Present
                &&& self.entries[hash].content_present ==> self.entries[hash].woken()
                &&& self.registry.known.contains(self.entries[hash].namespace)
            }
        &&& forall|ns: NamespaceId, hash: ContentHash| #[trigger]
            self.content.references.contains((ns, hash)) ==> self.registry.known.contains(ns)
    }

    /// A record arrived: its content is wanted, and it is tracked unless it already was.
    pub open spec fn after_arrival(self, arrival: ArrivalView, now: u64) -> Self {
        NodeView {
            content: self.content.after_want(arrival.namespace, arrival.hash),
            entries: if self.entries.contains_key(arrival.hash) {
                self.entries
            } else {
                self.entries.insert(
                    arrival.hash,
                    EntryView {
                        namespace: arrival.namespace,
                        author: arrival.author,
                        delivered_by: arrival.delivered_by,
                        seq: arrival.seq,
                        first_seen_ms: now,
                        content_present: false,
                        announced: Set::empty(),
                        next_attempt_ms: 0,
                        attempts: 0,
                    },
                )
            },
            ..self
        }
    }

    /// The entries that the settle loop has to go through.
    pub open spec fn pending(self) -> Set<ContentHash> {
        self.entries.dom().filter(|hash: ContentHash| !self.entries[hash].content_present)
    }

    /// The bytes of `hash` were found in the local store on behalf of `ns`: the hash can be served,
    /// and counts as announced there from here on. The entry is settled if it arrived in `ns`; if
    /// not, its own wake is left to the settle loop.
    pub open spec fn after_found(self, ns: NamespaceId, hash: ContentHash) -> Self {
        if self.entries.contains_key(hash) {
            let entry = self.entries[hash];
            NodeView {
                content: self.content.after_mark_present(hash),
                entries: self.entries.insert(
                    hash,
                    EntryView {
                        content_present: entry.content_present || ns == entry.namespace,
                        announced: entry.announced.insert(ns),
                        ..entry
                    },
                ),
                ..self
            }
        } else {
            self
        }
    }

    /// The wake that is due when the bytes of an arrival turn out to be present already.
    pub open spec fn arrival_wake(self, arrival: ArrivalView) -> Option<WakeView> {
        if self.entries.contains_key(arrival.hash)
            && !self.entries[arrival.hash].announced.contains(arrival.namespace) {
            Some(
                WakeView {
                    hash: arrival.hash,
                    namespace: arrival.namespace,
                    author: arrival.author,
                    seq: arrival.seq,
                    degraded: false,
                },
            )
        } else {
            None
        }
    }

    /// One settle pass over `hash` ended: its bytes are present, or a fetch that was due has
    /// failed, or nothing was tried.
    pub open spec fn after_settle(self, hash: ContentHash, due: bool, present: bool, now: u64) -> Self {
        if !self.entries.contains_key(hash) {
            self
        } else if present {
            self.after_found(self.entries[hash].namespace, hash)
        } else {
            let entry = self.entries[hash];
            let attempts = if due && entry.attempts < u32::MAX {
                (entry.attempts + 1) as u32
            } else {
                entry.attempts
            };
            NodeView {
                entries: self.entries.insert(
                    hash,
                    EntryView {
                        attempts,
                        next_attempt_ms: if due {
                            (now + backoff(attempts as nat)) as u64
                        } else {
                            entry.next_attempt_ms
                        },
                        announced: if overdue(entry.first_seen_ms, now) {
                            entry.announced.insert(entry.namespace)
                        } else {
                            entry.announced
                        },
                        ..entry
                    },
                ),
                ..self
            }
        }
    }

    /// The wake that is due when a settle pass over `hash` ended.
    pub open spec fn settle_wake(self, hash: ContentHash, present: bool, now: u64) -> Option<WakeView> {
        if self.entries.contains_key(hash) && !self.entries[hash].woken() && (present || overdue(
            self.entries[hash].first_seen_ms,
            now,
        )) {
            Some(
                WakeView {
                    hash,
                    namespace: self.entries[hash].namespace,
                    author: self.entries[hash].author,
                    seq: self.entries[hash].seq,
                    degraded: !present,
                },
            )
        } else {
            None
        }
    }

    /// Only `references` are left, and only what they name is held.
    pub open spec fn keeping(self, references: Set<(NamespaceId, ContentHash)>) -> Self {
        NodeView {
            content: ContentView { references, state: self.content.state.restrict(named(references)) },
            entries: self.entries.restrict(named(references)),
            ..self
        }
    }

    /// A retention sweep: a reference goes when all its entries in a listing have expired.
    pub open spec fn after_prune(self, listings: Seq<Listing>, now: u64) -> Self {
        self.keeping(
            self.content.references.filter(
                |reference: (NamespaceId, ContentHash)|
                    !retired(listings, reference, self.window, now as nat),
            ),
        )
    }
}

/// Keeping every reference changes nothing.
pub proof fn lemma_keeping_all(v: NodeView)
    requires
        v.consistent(),
    ensures
        v.keeping(v.content.references) == v,
{
    assert forall|h: ContentHash| v.content.state.contains_key(h) implies named(
        v.content.references,
    ).contains(h) by {
        assert(v.content.is_referenced(h));
    }
    assert(v.keeping(v.content.references).content =~= v.content);
    assert(v.keeping(v.content.references).entries =~= v.entries);
}

/// Keeping fewer references, and still fewer after that, is keeping those at once.
pub proof fn lemma_keeping_less(
    v: NodeView,
    some: Set<(NamespaceId, ContentHash)>,
    fewer: Set<(NamespaceId, ContentHash)>,
)
    requires
        fewer.subset_of(some),
    ensures
        v.keeping(some).keeping(fewer) == v.keeping(fewer),
{
    assert forall|h: ContentHash| named(fewer).contains(h) implies named(some).contains(h) by {
        let n = choose|n: NamespaceId| fewer.contains((n, h));
        assert(some.contains((n, h)));
    }
    assert(v.keeping(some).keeping(fewer).content =~= v.keeping(fewer).content);
    assert(v.keeping(some).keeping(fewer).entries =~= v.keeping(fewer).entries);
}

/// Dropping one reference the way the content index does it is keeping all the others.
pub proof fn lemma_keeping_one_less(v: NodeView, ns: NamespaceId, hash: ContentHash)
    requires
        v.consistent(),
    ensures
        ({
            let rest = v.content.references.remove((ns, hash));
            let dropped = v.content.after_forget(ns, hash);
            &&& dropped == v.keeping(rest).content
            &&& v.keeping(rest).entries == if dropped.is_referenced(hash) {
                v.entries
            } else {
                v.entries.remove(hash)
            }
        }),
{
    let rest = v.content.references.remove((ns, hash));
    let dropped = v.content.after_forget(ns, hash);
    assert(dropped.references == rest);
    let left = ContentView { references: rest, ..v.content };
    assert(left.is_referenced(hash) == dropped.is_referenced(hash));
    assert forall|h: ContentHash| v.content.state.contains_key(h) implies (named(rest).contains(h)
        <==> h != hash || left.is_referenced(hash)) by {
        assert(v.content.is_referenced(h));
        let n = choose|n: NamespaceId| v.content.references.contains((n, h));
        if h != hash {
            assert(rest.contains((n, h)));
        }
    }
    assert(dropped.state =~= v.keeping(rest).content.state);
    assert(v.entries.dom() == v.content.state.dom());
    if dropped.is_referenced(hash) {
        assert(v.keeping(rest).entries =~= v.entries);
    } else {
        assert(v.keeping(rest).entries =~= v.entries.remove(hash));
    }
}

/// Keeping some of the references keeps the state consistent.
pub proof fn lemma_keeping_consistent(v: NodeView, references: Set<(NamespaceId, ContentHash)>)
    requires
        v.consistent(),
        references.subset_of(v.content.references),
    ensures
        v.keeping(references).consistent(),
{
    let w = v.keeping(references);
    assert(w.entries.dom() =~= w.content.state.dom());
    assert(w.content.state.dom() =~= v.content.state.dom().intersect(named(references)));
    assert forall|h: ContentHash| #[trigger]
        w.content.state.contains_key(h) <==> w.content.is_referenced(h) by {
        if w.content.is_referenced(h) {
            let n = choose|n: NamespaceId| w.content.references.contains((n, h));
            assert(v.content.references.contains((n, h)));
            assert(v.content.is_referenced(h));
            assert(v.content.state.contains_key(h));
        }
    }
    assert forall|h: ContentHash| #[trigger] w.entries.contains_key(h) implies {
        &&& w.entries[h].content_present ==> w.content.state[h] == State::Present
        &&& w.entries[h].content_present ==> w.entries[h].woken()
        &&& w.registry.known.contains(w.entries[h].namespace)
    } by {
        assert(v.entries.contains_key(h));
        assert(v.content.state.contains_key(h));
    }
    assert forall|ns: NamespaceId, h: ContentHash| #[trigger]
        w.content.references.contains((ns, h)) implies w.registry.known.contains(ns) by {
        assert(v.content.references.contains((ns, h)));
    }
}

/// An arrival in a granted namespace keeps the state consistent.
pub proof fn lemma_arrival_consistent(v: NodeView, arrival: ArrivalView, now: u64)
    requires
        v.consistent(),
        v.registry.known.contains(arrival.namespace),
    ensures
        v.after_arrival(arrival, now).consistent(),
{
    let w = v.after_arrival(arrival, now);
    lemma_want_consistent(v.content, arrival.namespace, arrival.hash);
    assert(w.entries.dom() =~= w.content.state.dom());
    assert forall|ns: NamespaceId, hash: ContentHash| #[trigger]
        w.content.references.contains((ns, hash)) implies w.registry.known.contains(ns) by {
        if v.content.references.contains((ns, hash)) {
            assert(v.registry.known.contains(ns));
        }
    }
    assert forall|hash: ContentHash| #[trigger] w.entries.contains_key(hash) implies {
        &&& w.entries[hash].content_present ==> w.content.state[hash] == State::Present
        &&& w.entries[hash].content_present ==> w.entries[hash].woken()
        &&& w.registry.known.contains(w.entries[hash].namespace)
    } by {
        if v.entries.contains_key(hash) {
            assert(v.content.state.contains_key(hash));
        }
    }
}

/// Finding the bytes of a hash keeps the state consistent.
pub proof fn lemma_found_consistent(v: NodeView, ns: NamespaceId, hash: ContentHash)
    requires
        v.consistent(),
    ensures
        v.after_found(ns, hash).consistent(),
{
    let w = v.after_found(ns, hash);
    lemma_mark_present_consistent(v.content, hash);
    assert(w.entries.dom() =~= w.content.state.dom());
    assert forall|h: ContentHash| #[trigger] w.entries.contains_key(h) implies {
        &&& w.entries[h].content_present ==> w.content.state[h] == State::Present
        &&& w.entries[h].content_present ==> w.entries[h].woken()
        &&& w.registry.known.contains(w.entries[h].namespace)
    } by {
        assert(v.entries.contains_key(h));
        assert(v.content.state.contains_key(h));
    }
    assert forall|ns: NamespaceId, h: ContentHash| #[trigger]
        w.content.references.contains((ns, h)) implies w.registry.known.contains(ns) by {
        assert(v.content.references.contains((ns, h)));
    }
}

/// A settle pass keeps the state consistent.
pub proof fn lemma_settle_consistent(
    v: NodeView,
    hash: ContentHash,
    due: bool,
    present: bool,
    now: u64,
)
    requires
        v.consistent(),
    ensures
        v.after_settle(hash, due, present, now).consistent(),
{
    let w = v.after_settle(hash, due, present, now);
    if present {
        lemma_found_consistent(v, v.entries[hash].namespace, hash);
    } else {
        assert(w.entries.dom() =~= v.entries.dom());
        assert forall|h: ContentHash| #[trigger] w.entries.contains_key(h) implies {
            &&& w.entries[h].content_present ==> w.content.state[h] == State::Present
            &&& w.entries[h].content_present ==> w.entries[h].woken()
            &&& w.registry.known.contains(w.entries[h].namespace)
        } by {
            assert(v.entries.contains_key(h));
        }
    }
}

/// Law: a wake that is returned is recorded, so the entry counts as announced in that namespace
/// from then on.
pub proof fn law_wake_is_recorded(
    v: NodeView,
    arrival: ArrivalView,
    hash: ContentHash,
    due: bool,
    present: bool,
    now: u64,
)
    ensures
        v.arrival_wake(arrival) matches Some(wake) ==> v.after_found(
            arrival.namespace,
            arrival.hash,
        ).entries[wake.hash].announced.contains(wake.namespace),
        v.settle_wake(hash, present, now) matches Some(wake) ==> v.after_settle(
            hash,
            due,
            present,
            now,
        ).entries[wake.hash].announced.contains(wake.namespace),
{
}

/// Law: a wake in one namespace takes none from another. Where the bytes of a tracked entry are
/// found on behalf of another namespace, that one is woken unless it was, and the entry's own wake
/// is still owed: the next settle pass goes through it and gives it.
pub proof fn law_other_namespace_takes_no_wake(v: NodeView, arrival: ArrivalView, now: u64)
    requires
        v.consistent(),
        v.entries.contains_key(arrival.hash),
        v.entries[arrival.hash].namespace != arrival.namespace,
        !v.entries[arrival.hash].woken(),
    ensures
        v.arrival_wake(arrival) is Some <==> !v.entries[arrival.hash].announced.contains(
            arrival.namespace,
        ),
        ({
            let after = v.after_found(arrival.namespace, arrival.hash);
            &&& !after.entries[arrival.hash].woken()
            &&& after.pending().contains(arrival.hash)
            &&& after.settle_wake(arrival.hash, true, now) matches Some(wake) && wake.namespace
                == v.entries[arrival.hash].namespace
        }),
{
}

/// Law: what arrives again is not new: its backoff, its wake and its presence stay as they were.
pub proof fn law_rearrival_changes_no_entry(v: NodeView, arrival: ArrivalView, now: u64)
    requires
        v.consistent(),
        v.entries.contains_key(arrival.hash),
    ensures
        v.after_arrival(arrival, now).entries == v.entries,
        v.after_arrival(arrival, now).content.state == v.content.state,
{
    assert(v.content.state.contains_key(arrival.hash));
}

/// Law: an arrival that was not held counts as missing until its bytes land, and is not announced.
pub proof fn law_new_arrival_is_missing(v: NodeView, arrival: ArrivalView, now: u64)
    requires
        v.consistent(),
        !v.entries.contains_key(arrival.hash),
    ensures
        v.after_arrival(arrival, now).content.missing() == v.content.missing().insert(arrival.hash),
        !v.after_arrival(arrival, now).entries[arrival.hash].woken(),
        v.after_arrival(arrival, now).arrival_wake(arrival) is Some,
{
    assert(!v.content.state.contains_key(arrival.hash));
    assert(v.after_arrival(arrival, now).content.missing() =~= v.content.missing().insert(
        arrival.hash,
    ));
}

/// Law: content that lands late is still served: whatever came before, a settle pass that finds the
/// bytes takes exactly that hash off the missing ones, and announces the entry if nothing had.
pub proof fn law_late_content_becomes_servable(v: NodeView, hash: ContentHash, due: bool, now: u64)
    requires
        v.consistent(),
        v.entries.contains_key(hash),
    ensures
        v.after_settle(hash, due, true, now).content.state[hash] == State::Present,
        v.after_settle(hash, due, true, now).content.missing() == v.content.missing().remove(hash),
        v.settle_wake(hash, true, now) is Some <==> !v.entries[hash].woken(),
{
    assert(v.content.state.contains_key(hash));
    assert(v.after_settle(hash, due, true, now).content.missing() =~= v.content.missing().remove(
        hash,
    ));
}

/// Law: a settle pass that does not find the bytes gives nothing up: the same hashes are missing,
/// and so remain to be fetched, whether or not subscribers were woken without the content.
pub proof fn law_failed_fetch_is_retried(v: NodeView, hash: ContentHash, due: bool, now: u64)
    requires
        v.consistent(),
    ensures
        v.after_settle(hash, due, false, now).content == v.content,
        v.after_settle(hash, due, false, now).pending() == v.pending(),
{
    assert(v.after_settle(hash, due, false, now).pending() =~= v.pending());
}

/// Law: after a failed fetch the next one waits, at least the base and at most the ceiling.
pub proof fn law_failed_fetch_backs_off(v: NodeView, hash: ContentHash, now: u64)
    requires
        v.entries.contains_key(hash),
        now + BACKOFF_CEILING_MS <= u64::MAX,
    ensures
        ({
            let next = v.after_settle(hash, true, false, now).entries[hash].next_attempt_ms;
            now + BACKOFF_BASE_MS <= next <= now + BACKOFF_CEILING_MS
        }),
{
    let attempts = v.after_settle(hash, true, false, now).entries[hash].attempts;
    law_backoff_grows_to_a_ceiling(attempts as nat, attempts as nat);
}

/// Law: no entry is kept silent for ever: a settle pass after the fallback period leaves it
/// announced, without its content if need be and marked so.
pub proof fn law_overdue_entry_is_announced(
    v: NodeView,
    hash: ContentHash,
    due: bool,
    present: bool,
    now: u64,
)
    requires
        v.entries.contains_key(hash),
        now >= v.entries[hash].first_seen_ms + WAKE_FALLBACK_MS,
    ensures
        v.after_settle(hash, due, present, now).entries[hash].woken(),
        !v.entries[hash].woken() ==> (v.settle_wake(hash, present, now) matches Some(wake)
            && wake.degraded == !present),
{
}

/// Law: opt-in. Of a namespace that nobody has granted, nothing is referenced or tracked, and
/// nobody is woken about it.
pub proof fn law_no_grant_no_data(v: NodeView, ns: NamespaceId)
    requires
        v.consistent(),
        !v.registry.known.contains(ns),
    ensures
        forall|hash: ContentHash| !(#[trigger] v.content.references.contains((ns, hash))),
        forall|hash: ContentHash| #[trigger]
            v.entries.contains_key(hash) ==> v.entries[hash].namespace != ns,
        v.registry.targets(ns) == Set::<SubscriptionView>::empty(),
{
    assert forall|hash: ContentHash| !(#[trigger] v.content.references.contains((ns, hash))) by {
        if v.content.references.contains((ns, hash)) {
            assert(v.registry.known.contains(ns));
        }
    }
    assert forall|sub: SubscriptionView| !v.registry.targets(ns).contains(
        sub,
    ) by {
        if v.registry.subscriptions.contains((ns, sub)) {
            assert(v.registry.known.contains(ns));
        }
    }
    assert(v.registry.targets(ns) =~= Set::<SubscriptionView>::empty());
}

/// Law: a wake from the settle loop is for a granted namespace.
pub proof fn law_wakes_are_for_granted_namespaces(
    v: NodeView,
    hash: ContentHash,
    present: bool,
    now: u64,
)
    requires
        v.consistent(),
    ensures
        v.settle_wake(hash, present, now) matches Some(wake) ==> v.registry.known.contains(
            wake.namespace,
        ),
{
}

/// Law: whatever is held is announced in the namespace that it arrived in, with its content at
/// hand, or the settle loop goes through it; in particular it goes through all that is missing.
pub proof fn law_held_is_announced_or_pending(v: NodeView, hash: ContentHash)
    requires
        v.consistent(),
        v.content.state.contains_key(hash),
    ensures
        v.entries.contains_key(hash),
        !v.pending().contains(hash) ==> v.entries[hash].woken() && v.content.state[hash]
            == State::Present,
        v.content.missing().subset_of(v.pending()),
{
    assert(v.entries.contains_key(hash));
    assert forall|h: ContentHash| v.content.missing().contains(h) implies v.pending().contains(h) by {
        assert(v.entries.contains_key(h));
    }
}

/// Law: a sweep keeps what an entry that has not expired references, in whichever listing of its
/// namespace that entry stands: the hash, its presence and its record.
pub proof fn law_prune_keeps_the_unexpired(
    v: NodeView,
    listings: Seq<Listing>,
    i: int,
    j: int,
    now: u64,
)
    requires
        v.consistent(),
        0 <= i < listings.len(),
        0 <= j < listings[i].entries@.len(),
        v.content.references.contains((listings[i].namespace, listings[i].entries@[j].hash)),
        !listings[i].entries@[j].expired(v.window, now as nat),
    ensures
        ({
            let hash = listings[i].entries@[j].hash;
            let w = v.after_prune(listings, now);
            &&& w.content.references.contains((listings[i].namespace, hash))
            &&& w.content.state.contains_key(hash)
            &&& w.content.state[hash] == v.content.state[hash]
            &&& w.entries[hash] == v.entries[hash]
        }),
{
    let ns = listings[i].namespace;
    let hash = listings[i].entries@[j].hash;
    assert(!all_expired(listings[i].entries@, hash, v.window, now as nat));
    assert(!retired(listings, (ns, hash), v.window, now as nat));
    law_prune_keeps_what_is_not_retired(v, listings, ns, hash, now);
}

/// Law: a sweep keeps every reference that the listings do not show to have expired: the hash, its
/// presence and its record.
pub proof fn law_prune_keeps_what_is_not_retired(
    v: NodeView,
    listings: Seq<Listing>,
    ns: NamespaceId,
    hash: ContentHash,
    now: u64,
)
    requires
        v.consistent(),
        v.content.references.contains((ns, hash)),
        !retired(listings, (ns, hash), v.window, now as nat),
    ensures
        v.after_prune(listings, now).content.references.contains((ns, hash)),
        v.after_prune(listings, now).content.state.contains_key(hash),
        v.after_prune(listings, now).content.state[hash] == v.content.state[hash],
        v.after_prune(listings, now).entries[hash] == v.entries[hash],
{
    let w = v.after_prune(listings, now);
    assert(w.content.references.contains((ns, hash)));
    assert(named(w.content.references).contains(hash));
    assert(v.content.is_referenced(hash));
    assert(v.content.state.contains_key(hash));
}

/// Law: a sweep releases a hash exactly when all references to it have expired; two namespaces with
/// identical content cannot take it from each other.
pub proof fn law_prune_releases_the_expired(
    v: NodeView,
    listings: Seq<Listing>,
    hash: ContentHash,
    now: u64,
)
    requires
        v.consistent(),
        v.content.state.contains_key(hash),
    ensures
        !v.after_prune(listings, now).content.state.contains_key(hash) <==> (forall|
            ns: NamespaceId,
        | #[trigger]
            v.content.references.contains((ns, hash)) ==> retired(
                listings,
                (ns, hash),
                v.window,
                now as nat,
            )),
{
    let w = v.after_prune(listings, now);
    if w.content.state.contains_key(hash) {
        let n = choose|n: NamespaceId| w.content.references.contains((n, hash));
        assert(v.content.references.contains((n, hash)));
    }
    if exists|ns: NamespaceId| #[trigger]
        v.content.references.contains((ns, hash)) && !retired(
            listings,
            (ns, hash),
            v.window,
            now as nat,
        ) {
        let n = choose|ns: NamespaceId| #[trigger]
            v.content.references.contains((ns, hash)) && !retired(
                listings,
                (ns, hash),
                v.window,
                now as nat,
            );
        law_prune_keeps_what_is_not_retired(v, listings, n, hash, now);
    }
}

/// Law: a sweep leaves a consistent state, releases nothing new when it is repeated, and touches
/// neither grants nor subscriptions.
pub proof fn law_prune_is_idempotent(v: NodeView, listings: Seq<Listing>, now: u64)
    requires
        v.consistent(),
    ensures
        v.after_prune(listings, now).consistent(),
        v.after_prune(listings, now).after_prune(listings, now) == v.after_prune(listings, now),
        v.after_prune(listings, now).registry == v.registry,
{
    let w = v.after_prune(listings, now);
    lemma_keeping_consistent(v, w.content.references);
    let again = w.content.references.filter(
        |reference: (NamespaceId, ContentHash)|
            !retired(listings, reference, w.window, now as nat),
    );
    assert(again =~= w.content.references);
    lemma_keeping_all(w);
}

/// Law: without listings a sweep changes nothing.
pub proof fn law_prune_of_nothing(v: NodeView, now: u64)
    requires
        v.consistent(),
    ensures
        v.after_prune(Seq::empty(), now) == v,
{
    let kept = v.content.references.filter(
        |reference: (NamespaceId, ContentHash)|
            !retired(Seq::empty(), reference, v.window, now as nat),
    );
    assert(kept =~= v.content.references);
    lemma_keeping_all(v);
}

/// One step of the node.
pub enum Step {
    /// A grant, with a wake subscription or without.
    Register { ns: NamespaceId, sub: Option<SubscriptionView> },
    /// A wake subscription is dropped.
    Unsubscribe { ns: NamespaceId, sub: SubscriptionView },
    /// A record arrived.
    Arrive { arrival: ArrivalView, now: u64 },
    /// The local store was asked for the bytes of an arrival.
    Check { arrival: ArrivalView, present: bool },
    /// A settle pass over one hash ended.
    Settle { hash: ContentHash, due: bool, present: bool, now: u64 },
    /// A retention sweep.
    Prune { listings: Seq<Listing>, now: u64 },
}

impl NodeView {
    /// The state after one step.
    pub open spec fn after_step(self, step: Step) -> Self {
        match step {
            Step::Register { ns, sub } => NodeView {
                registry: self.registry.after_register(ns, sub),
                ..self
            },
            Step::Unsubscribe { ns, sub } => NodeView {
                registry: self.registry.after_unsubscribe(ns, sub),
                ..self
            },
            Step::Arrive { arrival, now } => self.after_arrival(arrival, now),
            Step::Check { arrival, present } => if present {
                self.after_found(arrival.namespace, arrival.hash)
            } else {
                self
            },
            Step::Settle { hash, due, present, now } => self.after_settle(hash, due, present, now),
            Step::Prune { listings, now } => self.after_prune(listings, now),
        }
    }

    /// The wake that one step gives.
    pub open spec fn step_wake(self, step: Step) -> Option<WakeView> {
        match step {
            Step::Check { arrival, present } => if present {
                self.arrival_wake(arrival)
            } else {
                None
            },
            Step::Settle { hash, due: _, present, now } => self.settle_wake(hash, present, now),
            _ => None,
        }
    }

    /// The state after a sequence of steps.
    pub open spec fn after_steps(self, steps: Seq<Step>) -> Self
        decreases steps.len(),
    {
        if steps.len() == 0 {
            self
        } else {
            self.after_step(steps[0]).after_steps(steps.drop_first())
        }
    }

    /// The wakes that a sequence of steps gives, in order.
    pub open spec fn wakes(self, steps: Seq<Step>) -> Seq<WakeView>
        decreases steps.len(),
    {
        if steps.len() == 0 {
            Seq::empty()
        } else {
            (match self.step_wake(steps[0]) {
                Some(wake) => seq![wake],
                None => Seq::empty(),
            }) + self.after_step(steps[0]).wakes(steps.drop_first())
        }
    }

    /// Whether no step of a sequence releases `hash` once it is held.
    pub open spec fn keeps_holding(self, steps: Seq<Step>, hash: ContentHash) -> bool
        decreases steps.len(),
    {
        steps.len() > 0 ==> {
            let next = self.after_step(steps[0]);
            &&& self.entries.contains_key(hash) ==> next.entries.contains_key(hash)
            &&& next.keeps_holding(steps.drop_first(), hash)
        }
    }
}

/// Whether `wake` is for `hash` in `ns`.
pub open spec fn is_for(wake: WakeView, ns: NamespaceId, hash: ContentHash) -> bool {
    wake.namespace == ns && wake.hash == hash
}

/// Whether the subscribers of `ns` are woken for `hash`.
pub open spec fn woken_in(wakes: Seq<WakeView>, ns: NamespaceId, hash: ContentHash) -> bool {
    exists|i: int| 0 <= i < wakes.len() && is_for(#[trigger] wakes[i], ns, hash)
}

/// Whether the subscribers of `ns` are woken for `hash` at most once.
pub open spec fn at_most_once_in(wakes: Seq<WakeView>, ns: NamespaceId, hash: ContentHash) -> bool {
    forall|i: int, j: int|
        0 <= i < j < wakes.len() && is_for(#[trigger] wakes[i], ns, hash) ==> !is_for(
            #[trigger] wakes[j],
            ns,
            hash,
        )
}

/// Whether `hash` is woken for, in whichever namespace.
pub open spec fn woken_for(wakes: Seq<WakeView>, hash: ContentHash) -> bool {
    exists|i: int| 0 <= i < wakes.len() && (#[trigger] wakes[i]).hash == hash
}

/// Whether `hash` is woken for at most once, in whichever namespace.
pub open spec fn at_most_once(wakes: Seq<WakeView>, hash: ContentHash) -> bool {
    forall|i: int, j: int|
        0 <= i < j < wakes.len() && (#[trigger] wakes[i]).hash == hash ==> (
        #[trigger] wakes[j]).hash != hash
}

/// What one step does to an entry that it does not release.
proof fn lemma_step(v: NodeView, step: Step, hash: ContentHash)
    ensures
        v.step_wake(step) matches Some(wake) ==> {
            &&& v.entries.contains_key(wake.hash)
            &&& !v.entries[wake.hash].announced.contains(wake.namespace)
            &&& v.after_step(step).entries.contains_key(wake.hash)
            &&& v.after_step(step).entries[wake.hash].announced.contains(wake.namespace)
        },
        v.entries.contains_key(hash) && v.after_step(step).entries.contains_key(hash) ==> {
            let before = v.entries[hash];
            let after = v.after_step(step).entries[hash];
            &&& before.announced.subset_of(after.announced)
            &&& after.first_seen_ms == before.first_seen_ms
            &&& after.namespace == before.namespace
        },
{
}

/// Law: over any sequence of steps, arrivals, settle passes and all, an entry that was announced in
/// a namespace and is not released gets no further wake there.
pub proof fn law_announced_entry_stays_silent(
    v: NodeView,
    steps: Seq<Step>,
    ns: NamespaceId,
    hash: ContentHash,
)
    requires
        v.entries.contains_key(hash),
        v.entries[hash].announced.contains(ns),
        v.keeps_holding(steps, hash),
    ensures
        !woken_in(v.wakes(steps), ns, hash),
        v.after_steps(steps).entries.contains_key(hash),
        v.after_steps(steps).entries[hash].announced.contains(ns),
        v.after_steps(steps).entries[hash].namespace == v.entries[hash].namespace,
    decreases steps.len(),
{
    if steps.len() > 0 {
        let next = v.after_step(steps[0]);
        lemma_step(v, steps[0], hash);
        law_announced_entry_stays_silent(next, steps.drop_first(), ns, hash);
        let rest = next.wakes(steps.drop_first());
        assert forall|i: int| 0 <= i < v.wakes(steps).len() implies !is_for(
            #[trigger] v.wakes(steps)[i],
            ns,
            hash,
        ) by {
            if v.step_wake(steps[0]) is Some {
                if i > 0 {
                    assert(v.wakes(steps)[i] == rest[i - 1]);
                }
            } else {
                assert(v.wakes(steps)[i] == rest[i]);
            }
        }
    }
}

/// Law: wakes fire once. Over any sequence of steps, the subscribers of a namespace are woken at most
/// once for an entry that is not released; if they are, it counts as announced there at the end.
pub proof fn law_wakes_fire_once(
    v: NodeView,
    steps: Seq<Step>,
    ns: NamespaceId,
    hash: ContentHash,
)
    requires
        v.keeps_holding(steps, hash),
    ensures
        at_most_once_in(v.wakes(steps), ns, hash),
        woken_in(v.wakes(steps), ns, hash) ==> v.after_steps(steps).entries.contains_key(hash)
            && v.after_steps(steps).entries[hash].announced.contains(ns),
    decreases steps.len(),
{
    if steps.len() > 0 {
        let next = v.after_step(steps[0]);
        let tail = steps.drop_first();
        let rest = next.wakes(tail);
        let all = v.wakes(steps);
        lemma_step(v, steps[0], hash);
        law_wakes_fire_once(next, tail, ns, hash);
        match v.step_wake(steps[0]) {
            Some(wake) => {
                assert forall|i: int| 0 < i < all.len() implies #[trigger] all[i] == rest[i - 1] by {}
                if is_for(wake, ns, hash) {
                    law_announced_entry_stays_silent(next, tail, ns, hash);
                }
                assert forall|i: int, j: int|
                    0 <= i < j < all.len() && is_for(#[trigger] all[i], ns, hash) implies !is_for(
                    #[trigger] all[j],
                    ns,
                    hash,
                ) by {
                    assert(all[j] == rest[j - 1]);
                    if i > 0 {
                        assert(all[i] == rest[i - 1]);
                    }
                }
                if woken_in(all, ns, hash) && !is_for(wake, ns, hash) {
                    let i = choose|i: int|
                        0 <= i < all.len() && is_for(#[trigger] all[i], ns, hash);
                    assert(is_for(rest[i - 1], ns, hash));
                }
            },
            None => {
                assert(all =~= rest);
            },
        }
    }
}

/// Whether `steps` are one settle pass at `now`.
pub open spec fn is_pass(steps: Seq<Step>, now: u64) -> bool {
    forall|i: int|
        0 <= i < steps.len() ==> ((#[trigger] steps[i]) matches Step::Settle { now: t, .. } && t
            == now)
}

/// A settle pass releases nothing, and wakes in the namespace that an entry arrived in.
proof fn lemma_pass_keeps(v: NodeView, steps: Seq<Step>, now: u64, hash: ContentHash)
    requires
        is_pass(steps, now),
    ensures
        v.keeps_holding(steps, hash),
        v.entries.contains_key(hash) ==> v.after_steps(steps).entries.contains_key(hash)
            && v.after_steps(steps).entries[hash].namespace == v.entries[hash].namespace,
        forall|i: int|
            0 <= i < v.wakes(steps).len() && (#[trigger] v.wakes(steps)[i]).hash == hash
                ==> v.entries.contains_key(hash) && v.wakes(steps)[i].namespace
                == v.entries[hash].namespace,
    decreases steps.len(),
{
    if steps.len() > 0 {
        let tail = steps.drop_first();
        assert forall|i: int| 0 <= i < tail.len() implies ((#[trigger] tail[i]) matches Step::Settle {
            now: t,
            ..
        } && t == now) by {
            assert(tail[i] == steps[i + 1]);
        }
        assert(steps[0] is Settle);
        let next = v.after_step(steps[0]);
        lemma_pass_keeps(next, tail, now, hash);
        let rest = next.wakes(tail);
        assert forall|i: int|
            0 <= i < v.wakes(steps).len() && (#[trigger] v.wakes(steps)[i]).hash == hash
            implies v.entries.contains_key(hash) && v.wakes(steps)[i].namespace
            == v.entries[hash].namespace by {
            if v.step_wake(steps[0]) is Some {
                if i > 0 {
                    assert(v.wakes(steps)[i] == rest[i - 1]);
                }
            } else {
                assert(v.wakes(steps)[i] == rest[i]);
            }
        }
    }
}

/// Law: what a settle pass wakes for is as it says. A wake with content is for a hash whose bytes
/// the pass found; one without is for a hash whose bytes it did not find and that is overdue. No
/// wake is for an entry that was announced before, nor for one whose content was present before.
pub proof fn law_settle_pass_wakes_are_true(v: NodeView, steps: Seq<Step>, now: u64, i: int)
    requires
        v.consistent(),
        is_pass(steps, now),
        0 <= i < v.wakes(steps).len(),
    ensures
        ({
            let wake = v.wakes(steps)[i];
            &&& v.entries.contains_key(wake.hash)
            &&& wake.namespace == v.entries[wake.hash].namespace
            &&& !v.entries[wake.hash].woken()
            &&& !v.entries[wake.hash].content_present
            &&& wake.degraded ==> overdue(v.entries[wake.hash].first_seen_ms, now)
            &&& exists|k: int|
                0 <= k < steps.len() && ((#[trigger] steps[k]) matches Step::Settle {
                    hash,
                    present,
                    ..
                } && hash == wake.hash && present == !wake.degraded)
        }),
    decreases steps.len(),
{
    let tail = steps.drop_first();
    let next = v.after_step(steps[0]);
    let rest = next.wakes(tail);
    assert(steps[0] is Settle);
    assert forall|m: int| 0 <= m < tail.len() implies ((#[trigger] tail[m]) matches Step::Settle {
        now: t,
        ..
    } && t == now) by {
        assert(tail[m] == steps[m + 1]);
    }
    match steps[0] {
        Step::Settle { hash, due, present, now: t } => {
            lemma_settle_consistent(v, hash, due, present, t);
        },
        _ => {},
    }
    let shift: int = if v.step_wake(steps[0]) is Some {
        1
    } else {
        0
    };
    if i >= shift {
        law_settle_pass_wakes_are_true(next, tail, now, i - shift);
        let wake = rest[i - shift];
        assert(v.wakes(steps)[i] == wake);
        assert(v.entries.contains_key(wake.hash));
        lemma_step(v, steps[0], wake.hash);
        assert(v.consistent() && next.entries.contains_key(wake.hash));
        let k = choose|k: int|
            0 <= k < tail.len() && ((#[trigger] tail[k]) matches Step::Settle { hash, present, .. }
                && hash == wake.hash && present == !wake.degraded);
        assert(steps[k + 1] == tail[k]);
    } else {
        assert(v.wakes(steps)[0] == v.step_wake(steps[0])->0);
    }
}

/// Law: no hash is woken for twice in one settle pass, nor in two passes with anything between them
/// that does not release it.
pub proof fn law_settle_passes_wake_once(
    v: NodeView,
    first: Seq<Step>,
    now_1: u64,
    between: Seq<Step>,
    second: Seq<Step>,
    now_2: u64,
    hash: ContentHash,
)
    requires
        is_pass(first, now_1),
        is_pass(second, now_2),
        v.after_steps(first).keeps_holding(between, hash),
    ensures
        at_most_once(v.wakes(first), hash),
        at_most_once(v.after_steps(first).after_steps(between).wakes(second), hash),
        woken_for(v.wakes(first), hash) ==> !woken_for(
            v.after_steps(first).after_steps(between).wakes(second),
            hash,
        ),
{
    let v_1 = v.after_steps(first);
    let v_2 = v_1.after_steps(between);
    lemma_pass_keeps(v, first, now_1, hash);
    lemma_pass_keeps(v_2, second, now_2, hash);
    law_wakes_fire_once(v, first, v.entries[hash].namespace, hash);
    law_wakes_fire_once(v_2, second, v_2.entries[hash].namespace, hash);
    lemma_one_namespace(v.wakes(first), v.entries[hash].namespace, hash);
    lemma_one_namespace(v_2.wakes(second), v_2.entries[hash].namespace, hash);
    if woken_for(v.wakes(first), hash) {
        let ns = v.entries[hash].namespace;
        let i = choose|i: int|
            0 <= i < v.wakes(first).len() && (#[trigger] v.wakes(first)[i]).hash == hash;
        assert(is_for(v.wakes(first)[i], ns, hash));
        law_announced_entry_stays_silent(v_1, between, ns, hash);
        law_announced_entry_stays_silent(v_2, second, ns, hash);
        assert forall|j: int| 0 <= j < v_2.wakes(second).len() implies (
        #[trigger] v_2.wakes(second)[j]).hash != hash by {
            assert(!is_for(v_2.wakes(second)[j], ns, hash));
        }
    }
}

/// Where all wakes for a hash are in one namespace, at most one there is at most one.
proof fn lemma_one_namespace(wakes: Seq<WakeView>, ns: NamespaceId, hash: ContentHash)
    requires
        at_most_once_in(wakes, ns, hash),
        forall|i: int|
            0 <= i < wakes.len() && (#[trigger] wakes[i]).hash == hash ==> wakes[i].namespace == ns,
    ensures
        at_most_once(wakes, hash),
{
    assert forall|i: int, j: int|
        0 <= i < j < wakes.len() && (#[trigger] wakes[i]).hash == hash implies (
    #[trigger] wakes[j]).hash != hash by {
        assert(is_for(wakes[i], ns, hash));
        assert(!is_for(wakes[j], ns, hash));
    }
}

} // verus!
