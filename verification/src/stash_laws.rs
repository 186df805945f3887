//! What the node's steps are for, stated on its state before and after a step.

use crate::content::{ContentHash, State};
use crate::entry::{backoff_ms, law_backoff_grows_to_a_ceiling, Listing};
use crate::node::{wake_view, Arrival, Outstanding, SettlePass, StashNode, Wake};
use crate::stash_model::{
    at_most_once_in, is_for, law_wakes_fire_once, named, none_fresh, retired, woken_in, ArrivalView,
    EntryView, NodeView, Step, WakeView,
};
use crate::subscriptions::{NamespaceId, PushSubscription, SubscriptionView};
use crate::table::Id;
use vstd::prelude::*;

verus! {

/// Law: a namespace is announced for an entry by a step only if that very step wakes it for that
/// entry, and by every step that does. An entry that a step brings in is announced nowhere.
pub proof fn law_announced_exactly_by_its_wake(
    v: NodeView,
    step: Step,
    ns: NamespaceId,
    hash: ContentHash,
)
    requires
        v.after_step(step).entries.contains_key(hash),
    ensures
        v.entries.contains_key(hash) ==> (v.after_step(step).entries[hash].announced.contains(ns)
            <==> v.entries[hash].announced.contains(ns) || (v.step_wake(step) matches Some(wake)
            && wake.hash == hash && wake.namespace == ns)),
        !v.entries.contains_key(hash) ==> !v.after_step(step).entries[hash].announced.contains(ns)
            && v.step_wake(step) is None,
{
}

/// Running two sequences of steps one after the other is running them as one.
proof fn lemma_steps_join(v: NodeView, a: Seq<Step>, b: Seq<Step>)
    ensures
        v.after_steps(a + b) == v.after_steps(a).after_steps(b),
        v.wakes(a + b) == v.wakes(a) + v.after_steps(a).wakes(b),
    decreases a.len(),
{
    if a.len() == 0 {
        assert(a + b =~= b);
        assert(v.wakes(a) + v.wakes(b) =~= v.wakes(b));
    } else {
        assert((a + b).drop_first() =~= a.drop_first() + b);
        assert((a + b)[0] == a[0]);
        let next = v.after_step(a[0]);
        lemma_steps_join(next, a.drop_first(), b);
        assert(v.wakes(a + b) =~= v.wakes(a) + v.after_steps(a).wakes(b));
    }
}

/// What keeps holding a hash over two sequences keeps holding it over each.
proof fn lemma_keeps_holding_join(v: NodeView, a: Seq<Step>, b: Seq<Step>, hash: ContentHash)
    requires
        v.keeps_holding(a + b, hash),
    ensures
        v.keeps_holding(a, hash),
        v.after_steps(a).keeps_holding(b, hash),
    decreases a.len(),
{
    if a.len() == 0 {
        assert(a + b =~= b);
    } else {
        assert((a + b).drop_first() =~= a.drop_first() + b);
        assert((a + b)[0] == a[0]);
        lemma_keeps_holding_join(v.after_step(a[0]), a.drop_first(), b, hash);
    }
}

/// Whether an entry is held and announced in `ns`.
pub open spec fn told(v: NodeView, ns: NamespaceId, hash: ContentHash) -> bool {
    v.entries.contains_key(hash) && v.entries[hash].announced.contains(ns)
}

/// Law: whatever is announced at the end and was not at the start has been woken for in between.
pub proof fn law_announced_means_woken(
    v: NodeView,
    steps: Seq<Step>,
    ns: NamespaceId,
    hash: ContentHash,
)
    requires
        !told(v, ns, hash),
        told(v.after_steps(steps), ns, hash),
    ensures
        woken_in(v.wakes(steps), ns, hash),
    decreases steps.len(),
{
    if steps.len() > 0 {
        let next = v.after_step(steps[0]);
        let rest = next.wakes(steps.drop_first());
        let all = v.wakes(steps);
        if told(next, ns, hash) {
            law_announced_exactly_by_its_wake(v, steps[0], ns, hash);
            assert(is_for(all[0], ns, hash));
        } else {
            law_announced_means_woken(next, steps.drop_first(), ns, hash);
            let i = choose|i: int| 0 <= i < rest.len() && is_for(#[trigger] rest[i], ns, hash);
            if v.step_wake(steps[0]) is Some {
                assert(all[i + 1] == rest[i]);
            } else {
                assert(all[i] == rest[i]);
            }
        }
    }
}

/// What is announced stays so while it is held.
proof fn lemma_told_stays(v: NodeView, steps: Seq<Step>, ns: NamespaceId, hash: ContentHash)
    requires
        told(v, ns, hash),
        v.keeps_holding(steps, hash),
    ensures
        told(v.after_steps(steps), ns, hash),
    decreases steps.len(),
{
    if steps.len() > 0 {
        law_announced_exactly_by_its_wake(v, steps[0], ns, hash);
        lemma_told_stays(v.after_step(steps[0]), steps.drop_first(), ns, hash);
    }
}

/// Whether `step` finds the bytes of `hash` on behalf of `ns`, where the entry is held as `entry`:
/// an arrival in `ns` finds them in the local store, or the settle loop finds them for an entry that
/// arrived in `ns`.
pub open spec fn finds(step: Step, entry: EntryView, ns: NamespaceId, hash: ContentHash) -> bool {
    match step {
        Step::Check { arrival, present } => present && arrival.hash == hash && arrival.namespace
            == ns,
        Step::Settle { hash: h, due: _, present, now: _ } => present && h == hash
            && entry.namespace == ns,
        _ => false,
    }
}

/// Law: subscribers are woken exactly once. Over any sequence of steps in which the bytes of a held
/// entry are found on behalf of a namespace that had no wake for it, and which does not release it,
/// that namespace is woken for it: at least once and at most once.
pub proof fn law_found_content_wakes_exactly_once(
    v: NodeView,
    steps: Seq<Step>,
    k: int,
    ns: NamespaceId,
    hash: ContentHash,
)
    requires
        !told(v, ns, hash),
        v.keeps_holding(steps, hash),
        0 <= k < steps.len(),
        v.after_steps(steps.take(k)).entries.contains_key(hash),
        finds(steps[k], v.after_steps(steps.take(k)).entries[hash], ns, hash),
    ensures
        woken_in(v.wakes(steps), ns, hash),
        at_most_once_in(v.wakes(steps), ns, hash),
{
    let before = steps.take(k);
    let after = steps.skip(k + 1);
    let step = seq![steps[k]];
    assert(steps =~= before + (step + after));
    lemma_keeps_holding_join(v, before, step + after, hash);
    let v_1 = v.after_steps(before);
    lemma_keeps_holding_join(v_1, step, after, hash);
    lemma_steps_join(v, before, step + after);
    lemma_steps_join(v_1, step, after);
    reveal_with_fuel(NodeView::after_steps, 2);
    assert(step.drop_first() =~= Seq::<Step>::empty());
    let v_2 = v_1.after_steps(step);
    assert(v_2 == v_1.after_step(steps[k]));
    assert(told(v_2, ns, hash));
    lemma_told_stays(v_2, after, ns, hash);
    law_announced_means_woken(v, steps, ns, hash);
    law_wakes_fire_once(v, steps, ns, hash);
}

/// Law: a settle step that finds the bytes of an entry that was not announced wakes the namespace
/// that it arrived in, with its author and number, and says that the content is there; one that does
/// not find them wakes only after thirty seconds, and says that it is not.
pub proof fn law_settle_wake_names_its_entry(v: NodeView, hash: ContentHash, present: bool, now: u64)
    requires
        v.entries.contains_key(hash),
    ensures
        ({
            let entry = v.entries[hash];
            let silent = entry.announced.contains(entry.namespace);
            let owed = present || now >= entry.first_seen_ms + 30_000;
            &&& !silent && owed ==> v.settle_wake(hash, present, now) == Some(
                WakeView {
                    hash,
                    namespace: entry.namespace,
                    author: entry.author,
                    seq: entry.seq,
                    degraded: !present,
                },
            )
            &&& silent || !owed ==> v.settle_wake(hash, present, now) is None
        }),
{
}

/// Law: a settle step touches one entry: no other entry, no reference, no grant, and nothing that
/// identifies the entry. Bytes that are found are marked present; otherwise presence stays as it was.
pub proof fn law_settle_touches_one_entry(
    v: NodeView,
    hash: ContentHash,
    due: bool,
    present: bool,
    now: u64,
    other: ContentHash,
)
    requires
        v.consistent(),
        v.entries.contains_key(hash),
    ensures
        ({
            let w = v.after_settle(hash, due, present, now);
            let e = v.entries[hash];
            let f = w.entries[hash];
            &&& w.registry == v.registry && w.window == v.window
            &&& w.content.references == v.content.references
            &&& w.content.state.dom() == v.content.state.dom()
            &&& w.entries.dom() == v.entries.dom()
            &&& other != hash && v.entries.contains_key(other) ==> w.entries[other]
                == v.entries[other] && w.content.state[other] == v.content.state[other]
            &&& f.namespace == e.namespace && f.author == e.author && f.seq == e.seq
            &&& f.delivered_by == e.delivered_by && f.first_seen_ms == e.first_seen_ms
            &&& present ==> f.content_present && w.content.state[hash] == State::Present
            &&& !present ==> f.content_present == e.content_present && w.content.state[hash]
                == v.content.state[hash]
        }),
{
    let w = v.after_settle(hash, due, present, now);
    assert(v.content.state.contains_key(hash));
    assert(w.content.state.dom() =~= v.content.state.dom());
    assert(w.entries.dom() =~= v.entries.dom());
    if other != hash && v.entries.contains_key(other) {
        assert(v.content.state.contains_key(other));
    }
}

/// Law: only a fetch that was due and failed counts as a failure and pushes the next one back, by
/// between half a second and a minute; anything else leaves both as they were.
pub proof fn law_only_failed_fetches_back_off(
    v: NodeView,
    hash: ContentHash,
    due: bool,
    present: bool,
    now: u64,
)
    requires
        v.entries.contains_key(hash),
        now + 60_000 <= u64::MAX,
    ensures
        ({
            let e = v.entries[hash];
            let f = v.after_settle(hash, due, present, now).entries[hash];
            &&& due && !present && e.attempts < u32::MAX ==> f.attempts == e.attempts + 1
            &&& due && !present ==> now + 500 <= f.next_attempt_ms <= now + 60_000
            &&& due && !present && f.attempts == 1 ==> f.next_attempt_ms == now + 1_000
            &&& due && !present && f.attempts == 6 ==> f.next_attempt_ms == now + 32_000
            &&& due && !present && f.attempts >= 7 ==> f.next_attempt_ms == now + 60_000
            &&& !due || present ==> f.attempts == e.attempts && f.next_attempt_ms
                == e.next_attempt_ms
        }),
{
    let f = v.after_settle(hash, due, present, now).entries[hash];
    law_backoff_grows_to_a_ceiling(f.attempts as nat, f.attempts as nat);
    vstd::arithmetic::power2::lemma2_to64();
}

/// Law: a record that is new is tracked as it arrived, wanted, unannounced and due at once; and
/// nothing else changes but the reference of its namespace.
pub proof fn law_arrival_is_tracked_as_it_came(
    v: NodeView,
    arrival: ArrivalView,
    now: u64,
    other: ContentHash,
)
    requires
        v.consistent(),
    ensures
        ({
            let w = v.after_arrival(arrival, now);
            let f = w.entries[arrival.hash];
            &&& w.registry == v.registry && w.window == v.window
            &&& w.content.references == v.content.references.insert(
                (arrival.namespace, arrival.hash),
            )
            &&& w.entries.contains_key(arrival.hash)
            &&& !v.entries.contains_key(arrival.hash) ==> {
                &&& w.content.state[arrival.hash] == State::Wanted
                &&& f.namespace == arrival.namespace
                &&& f.author == arrival.author
                &&& f.seq == arrival.seq
                &&& f.delivered_by == arrival.delivered_by
                &&& f.first_seen_ms == now
                &&& !f.content_present
                &&& f.announced == Set::<NamespaceId>::empty()
                &&& f.next_attempt_ms == 0
                &&& f.attempts == 0
            }
            &&& v.entries.contains_key(arrival.hash) ==> f == v.entries[arrival.hash]
                && w.content.state[arrival.hash] == v.content.state[arrival.hash]
            &&& other != arrival.hash ==> (w.entries.contains_key(other) <==> v.entries.contains_key(
                other,
            ))
            &&& other != arrival.hash && v.entries.contains_key(other) ==> w.entries[other]
                == v.entries[other] && w.content.state[other] == v.content.state[other]
        }),
{
    if v.entries.contains_key(arrival.hash) {
        assert(v.content.state.contains_key(arrival.hash));
    } else {
        assert(!v.content.state.contains_key(arrival.hash));
    }
    if v.entries.contains_key(other) {
        assert(v.content.state.contains_key(other));
    }
}

/// Law: bytes that an arrival finds make its hash servable, and wake its namespace with its author
/// and number unless that namespace was woken for the hash; nothing else is touched.
pub proof fn law_arrival_that_finds_bytes(v: NodeView, arrival: ArrivalView, other: ContentHash)
    requires
        v.consistent(),
        v.entries.contains_key(arrival.hash),
    ensures
        ({
            let w = v.after_found(arrival.namespace, arrival.hash);
            let e = v.entries[arrival.hash];
            let f = w.entries[arrival.hash];
            &&& w.content.state[arrival.hash] == State::Present
            &&& w.content.references == v.content.references
            &&& w.registry == v.registry && w.window == v.window
            &&& f.content_present <==> e.content_present || arrival.namespace == e.namespace
            &&& f.namespace == e.namespace && f.author == e.author && f.seq == e.seq
            &&& f.delivered_by == e.delivered_by && f.first_seen_ms == e.first_seen_ms
            &&& f.attempts == e.attempts && f.next_attempt_ms == e.next_attempt_ms
            &&& other != arrival.hash && v.entries.contains_key(other) ==> w.entries[other]
                == v.entries[other] && w.content.state[other] == v.content.state[other]
            &&& v.arrival_wake(arrival) == if e.announced.contains(arrival.namespace) {
                None
            } else {
                Some(
                    WakeView {
                        hash: arrival.hash,
                        namespace: arrival.namespace,
                        author: arrival.author,
                        seq: arrival.seq,
                        degraded: false,
                    },
                )
            }
        }),
{
    assert(v.content.state.contains_key(arrival.hash));
    if v.entries.contains_key(other) {
        assert(v.content.state.contains_key(other));
    }
}

/// Law: the settle loop goes through exactly the held entries that are not settled.
pub proof fn law_pending_is_what_is_not_settled(v: NodeView, hash: ContentHash)
    ensures
        v.pending().contains(hash) <==> v.entries.contains_key(hash)
            && !v.entries[hash].content_present,
{
}

/// Whether the entry at `j` of the listing at `i` is one of `hash` in `ns`.
pub open spec fn shows(
    listings: Seq<Listing>,
    i: int,
    j: int,
    ns: NamespaceId,
    hash: ContentHash,
) -> bool {
    &&& 0 <= i < listings.len()
    &&& 0 <= j < listings[i].entries@.len()
    &&& listings[i].namespace == ns
    &&& listings[i].entries@[j].hash == hash
}

/// Whether the entry at `j` of the listing at `i` is older than the window.
pub open spec fn is_old(listings: Seq<Listing>, i: int, j: int, window: nat, now: u64) -> bool {
    listings[i].entries@[j].timestamp_us as int / 1_000 + window < now
}

/// Law: a sweep drops a reference exactly when the listings show it and show it only in entries that
/// are older than the window, whichever listing they stand in. What no reference names is released;
/// what one names stays as it was.
pub proof fn law_prune_drops_exactly_the_expired(
    v: NodeView,
    listings: Seq<Listing>,
    now: u64,
    ns: NamespaceId,
    hash: ContentHash,
)
    requires
        v.consistent(),
    ensures
        v.after_prune(listings, now).content.references.contains((ns, hash))
            <==> v.content.references.contains((ns, hash)) && !((exists|i: int, j: int| #[trigger]
            shows(listings, i, j, ns, hash)) && (forall|i: int, j: int| #[trigger]
            shows(listings, i, j, ns, hash) ==> is_old(listings, i, j, v.window, now))),
        v.after_prune(listings, now).entries.contains_key(hash) <==> exists|n: NamespaceId| #[trigger]
            v.after_prune(listings, now).content.references.contains((n, hash)),
        v.after_prune(listings, now).entries.contains_key(hash) ==> v.after_prune(
            listings,
            now,
        ).entries[hash] == v.entries[hash] && v.after_prune(listings, now).content.state[hash]
            == v.content.state[hash],
        v.after_prune(listings, now).registry == v.registry,
        v.after_prune(listings, now).window == v.window,
        v.after_prune(listings, now).content.state.dom() == v.after_prune(
            listings,
            now,
        ).entries.dom(),
{
    let w = v.after_prune(listings, now);
    let reference = (ns, hash);
    let window = v.window;
    assert(retired(listings, reference, window, now as nat) <==> (exists|i: int, j: int| #[trigger]
        shows(listings, i, j, ns, hash)) && (forall|i: int, j: int| #[trigger]
        shows(listings, i, j, ns, hash) ==> is_old(listings, i, j, window, now))) by {
        if retired(listings, reference, window, now as nat) {
            let i = choose|i: int|
                0 <= i < listings.len() && (#[trigger] listings[i]).namespace == ns
                    && crate::entry::lists(listings[i].entries@, hash);
            let j = choose|j: int|
                0 <= j < listings[i].entries@.len() && (#[trigger] listings[i].entries@[j]).hash
                    == hash;
            assert(shows(listings, i, j, ns, hash));
            assert forall|a: int, b: int| #[trigger] shows(listings, a, b, ns, hash) implies is_old(
                listings,
                a,
                b,
                window,
                now,
            ) by {
                assert(listings[a].namespace == ns);
                assert(listings[a].entries@[b].expired(window, now as nat));
            }
        }
        if (exists|i: int, j: int| #[trigger] shows(listings, i, j, ns, hash)) && (forall|
            i: int,
            j: int,
        | #[trigger]
            shows(listings, i, j, ns, hash) ==> is_old(listings, i, j, window, now)) {
            let (i, j) = choose|i: int, j: int| #[trigger] shows(listings, i, j, ns, hash);
            assert(listings[i].entries@[j].hash == hash);
            assert(crate::entry::lists(listings[i].entries@, hash));
            assert forall|a: int|
                0 <= a < listings.len() && (#[trigger] listings[a]).namespace == ns implies crate::entry::all_expired(
            listings[a].entries@, hash, window, now as nat) by {
                assert forall|b: int|
                    0 <= b < listings[a].entries@.len() && (#[trigger] listings[a].entries@[b]).hash
                        == hash implies listings[a].entries@[b].expired(window, now as nat) by {
                    assert(shows(listings, a, b, ns, hash));
                }
            }
            assert(none_fresh(listings, reference, window, now as nat));
        }
    }
    assert(w.entries.contains_key(hash) <==> exists|n: NamespaceId| #[trigger]
        w.content.references.contains((n, hash))) by {
        assert(named(w.content.references).contains(hash) <==> exists|n: NamespaceId| #[trigger]
            w.content.references.contains((n, hash)));
        if exists|n: NamespaceId| #[trigger] w.content.references.contains((n, hash)) {
            let n = choose|n: NamespaceId| #[trigger] w.content.references.contains((n, hash));
            assert(v.content.references.contains((n, hash)));
            assert(v.content.is_referenced(hash));
            assert(v.content.state.contains_key(hash));
        }
    }
    if w.entries.contains_key(hash) {
        assert(v.entries.contains_key(hash));
        assert(v.content.state.contains_key(hash));
    }
    assert(w.content.state.dom() =~= w.entries.dom());
}

/// Law: every namespace is swept. Of every entry in every listing: if all entries with its hash in
/// all listings of its namespace are older than the window, its reference is gone after the sweep.
pub proof fn law_every_listing_is_swept(
    v: NodeView,
    listings: Seq<Listing>,
    i: int,
    j: int,
    now: u64,
)
    requires
        v.consistent(),
        0 <= i < listings.len(),
        0 <= j < listings[i].entries@.len(),
        forall|a: int, b: int|
            #![trigger listings[a].entries@[b]]
            0 <= a < listings.len() && 0 <= b < listings[a].entries@.len() && listings[a].namespace
                == listings[i].namespace && listings[a].entries@[b].hash
                == listings[i].entries@[j].hash ==> listings[a].entries@[b].timestamp_us as int
                / 1_000 + v.window < now,
    ensures
        !v.after_prune(listings, now).content.references.contains(
            (listings[i].namespace, listings[i].entries@[j].hash),
        ),
{
    let ns = listings[i].namespace;
    let hash = listings[i].entries@[j].hash;
    assert(shows(listings, i, j, ns, hash));
    assert forall|a: int, b: int| #[trigger] shows(listings, a, b, ns, hash) implies is_old(
        listings,
        a,
        b,
        v.window,
        now,
    ) by {
        assert(listings[a].entries@[b].hash == hash);
    }
    law_prune_drops_exactly_the_expired(v, listings, now, ns, hash);
}

/// Law: registering and unsubscribing change grants and wake targets only.
pub proof fn law_control_steps_touch_no_content(
    v: NodeView,
    ns: NamespaceId,
    grant: Option<SubscriptionView>,
    sub: SubscriptionView,
)
    ensures
        v.after_step(Step::Register { ns, sub: grant }).content == v.content,
        v.after_step(Step::Register { ns, sub: grant }).entries == v.entries,
        v.after_step(Step::Register { ns, sub: grant }).registry.known == v.registry.known.insert(ns),
        grant matches Some(s) ==> v.after_step(
            Step::Register { ns, sub: grant },
        ).registry.targets(ns).contains(s),
        v.after_step(Step::Unsubscribe { ns, sub }).content == v.content,
        v.after_step(Step::Unsubscribe { ns, sub }).entries == v.entries,
        v.after_step(Step::Unsubscribe { ns, sub }).registry.known == v.registry.known,
        !v.after_step(Step::Unsubscribe { ns, sub }).registry.targets(ns).contains(sub),
{
}

/// Law: settling a hash is the settle step: it leaves the state that the step describes, keeps the node
/// well-formed and gives the wake of that step.
pub proof fn law_settling_is_a_step(
    node: &mut StashNode,
    hash: ContentHash,
    due: bool,
    present: bool,
    now: u64,
    r: Option<Wake>,
)
    requires
        call_ensures(StashNode::settle, (node, hash, due, present, now), r),
    ensures
        ({
            let step = Step::Settle { hash, due, present, now };
            &&& final(node).wf()
            &&& final(node)@ == old(node)@.after_step(step)
            &&& wake_view(r) == old(node)@.step_wake(step)
        }),
{
}

/// Law: looking for an arrival's bytes is the check step, and gives the wake of that step.
pub proof fn law_checking_is_a_step(
    node: &mut StashNode,
    arrival: Arrival,
    present: bool,
    r: Option<Wake>,
)
    requires
        call_ensures(StashNode::arrival_checked, (node, &arrival, present), r),
    ensures
        ({
            let step = Step::Check { arrival: arrival@, present };
            &&& final(node).wf()
            &&& final(node)@ == old(node)@.after_step(step)
            &&& wake_view(r) == old(node)@.step_wake(step)
        }),
{
}

/// Law: taking an arrival in is the arrival step.
pub proof fn law_arriving_is_a_step(node: &mut StashNode, arrival: Arrival, now: u64)
    requires
        call_ensures(StashNode::arrived, (node, &arrival, now), ()),
    ensures
        final(node).wf(),
        final(node)@ == old(node)@.after_step(Step::Arrive { arrival: arrival@, now }),
{
}

/// Law: a retention sweep is the prune step, and the number that it gives is how many hashes it
/// released.
pub proof fn law_pruning_is_a_step(
    node: &mut StashNode,
    listings: Vec<Listing>,
    now: u64,
    r: u64,
)
    requires
        call_ensures(StashNode::prune_once, (node, &listings, now), r),
    ensures
        final(node).wf(),
        final(node)@ == old(node)@.after_step(Step::Prune { listings: listings@, now }),
        r + final(node)@.content.state.dom().len() == old(node)@.content.state.dom().len(),
{
}

/// Law: registering is the registration step, and tells whether the namespace is new.
pub proof fn law_registering_is_a_step(
    node: &mut StashNode,
    ns: NamespaceId,
    sub: Option<PushSubscription>,
    r: bool,
)
    requires
        call_ensures(StashNode::register, (node, ns, sub), r),
    ensures
        final(node).wf(),
        final(node)@ == old(node)@.after_step(
            Step::Register {
                ns,
                sub: match sub {
                    Some(s) => Some(s@),
                    None => None,
                },
            },
        ),
        r <==> !old(node)@.registry.known.contains(ns),
{
}

/// Law: unsubscribing is the unsubscription step, and tells whether there was anything to drop.
pub proof fn law_unsubscribing_is_a_step(
    node: &mut StashNode,
    ns: NamespaceId,
    sub: PushSubscription,
    r: bool,
)
    requires
        call_ensures(StashNode::unsubscribe, (node, &ns, &sub), r),
    ensures
        final(node).wf(),
        final(node)@ == old(node)@.after_step(Step::Unsubscribe { ns, sub: sub@ }),
        r <==> old(node)@.registry.targets(ns).contains(sub@),
{
}

/// Law: a step of a settle pass settles its current hash, once, at the time of the pass; it keeps the
/// wakes so far and adds the one that the step gives; and it goes on to the next hash.
pub proof fn law_pass_settles_one_hash_at_a_time(
    pass: &mut SettlePass,
    node: &mut StashNode,
    present: bool,
)
    requires
        old(pass)@.done < old(pass)@.items.len(),
        call_ensures(SettlePass::settled, (pass, node, present), ()),
    ensures
        ({
            let (hash, due) = old(pass)@.items[old(pass)@.done as int];
            let step = Step::Settle { hash, due, present, now: old(pass)@.now };
            let wakes = old(pass)@.wakes;
            &&& final(node)@ == old(node)@.after_step(step)
            &&& final(pass)@.done == old(pass)@.done + 1
            &&& final(pass)@.now == old(pass)@.now
            &&& final(pass)@.items == old(pass)@.items
            &&& final(pass)@.sources == old(pass)@.sources
            &&& old(node)@.step_wake(step) matches Some(wake) ==> final(pass)@.wakes == wakes.push(
                wake,
            )
            &&& old(node)@.step_wake(step) is None ==> final(pass)@.wakes == wakes
        }),
{
}

/// Law: the current item of a pass is the next one that is not done, as long as there is one, and the
/// wakes at its end are those that its steps gave.
pub proof fn law_pass_gives_what_it_holds(pass: SettlePass, item: Option<&Outstanding>, r: Vec<Wake>)
    requires
        pass.wf(),
        call_ensures(SettlePass::current, (&pass,), item),
        call_ensures(SettlePass::finish, (pass,), r),
    ensures
        item is None <==> pass@.done == pass@.items.len(),
        item matches Some(o) ==> o.hash == pass@.items[pass@.done as int].0 && o.due
            == pass@.items[pass@.done as int].1 && o.sources@.map_values(|id: Id| id@)
            == pass@.sources[pass@.done as int],
        r@.len() == pass@.wakes.len(),
        forall|i: int| 0 <= i < r@.len() ==> (#[trigger] r@[i])@ == pass@.wakes[i],
{
    let views = r@.map_values(|w: Wake| w@);
    assert(views.len() == r@.len());
    assert forall|i: int| 0 <= i < r@.len() implies (#[trigger] r@[i])@ == pass@.wakes[i] by {
        assert(views[i] == r@[i]@);
    }
}

/// Law: a step over a hash that the node does not hold changes nothing and wakes nobody.
pub proof fn law_unknown_hash_changes_nothing(
    v: NodeView,
    arrival: ArrivalView,
    due: bool,
    present: bool,
    now: u64,
)
    requires
        !v.entries.contains_key(arrival.hash),
    ensures
        v.after_settle(arrival.hash, due, present, now) == v,
        v.settle_wake(arrival.hash, present, now) is None,
        v.after_found(arrival.namespace, arrival.hash) == v,
        v.arrival_wake(arrival) is None,
{
}

/// Law: after every failed fetch that was due, the wait is that for the failures so far, counting
/// this one; the count stops at the most that it can hold.
pub proof fn law_wait_goes_by_the_failures_so_far(v: NodeView, hash: ContentHash, now: u64, wait: u64)
    requires
        v.entries.contains_key(hash),
        now + 60_000 <= u64::MAX,
        call_ensures(
            backoff_ms,
            (v.after_settle(hash, true, false, now).entries[hash].attempts,),
            wait,
        ),
    ensures
        ({
            let e = v.entries[hash];
            let f = v.after_settle(hash, true, false, now).entries[hash];
            &&& f.next_attempt_ms == now + wait
            &&& e.attempts == u32::MAX ==> f.attempts == u32::MAX
            &&& e.attempts < u32::MAX ==> f.attempts == e.attempts + 1
        }),
{
}

} // verus!
