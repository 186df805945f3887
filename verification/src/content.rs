//! Content presence: which blobs the replicated entries reference, and whether their bytes have
//! landed.
//!
//! Reconciliation transfers entry records; the bytes that an entry's hash names are a separate
//! transfer. A store-and-forward node that holds the record without the bytes cannot serve a
//! reader, so this index keeps the difference as tracked state:
//!
//! * whatever is still [`State::Wanted`] is work for the settle loop;
//! * [`ContentIndex::referenced`] is the set of blobs that garbage collection must keep;
//! * [`ContentIndex::missing_count`] is the health signal.

use crate::table::{lemma_remove_at, same_id, Id, Table};
use vstd::prelude::*;

verus! {

/// A 32-byte content hash.
pub type ContentHash = Id;

/// A 32-byte namespace id.
pub type NamespaceId = Id;

/// What the stash knows about one referenced blob.
#[derive(Debug, Clone, Copy, PartialEq, Eq, Structural)]
pub enum State {
    /// An entry references it; the bytes are not here yet.
    Wanted,
    /// The bytes are in the local store.
    Present,
}

/// Tracks, per namespace, the content hashes that entries reference and whether the bytes have
/// landed. A hash is held as long as any namespace references it.
#[derive(Debug)]
pub struct ContentIndex {
    state: Table<State>,
    references: Vec<(NamespaceId, ContentHash)>,
}

/// The contents of a [`ContentIndex`].
#[verifier::ext_equal]
pub struct ContentView {
    /// What is known of each tracked hash.
    pub state: Map<ContentHash, State>,
    /// Which namespace references which hash.
    pub references: Set<(NamespaceId, ContentHash)>,
}

impl ContentView {
    /// Nothing is referenced.
    pub open spec fn empty() -> Self {
        ContentView { state: Map::empty(), references: Set::empty() }
    }

    /// Whether any namespace references `hash`.
    pub open spec fn is_referenced(self, hash: ContentHash) -> bool {
        exists|ns: NamespaceId| #[trigger] self.references.contains((ns, hash))
    }

    /// The tracked hashes are the referenced ones.
    pub open spec fn consistent(self) -> bool {
        &&& self.state.dom().finite()
        &&& forall|hash: ContentHash| #[trigger]
            self.state.contains_key(hash) <==> self.is_referenced(hash)
    }

    /// The hashes whose bytes are missing.
    pub open spec fn missing(self) -> Set<ContentHash> {
        self.state.dom().filter(|hash: ContentHash| self.state[hash] == State::Wanted)
    }

    /// An entry in `ns` references `hash`.
    pub open spec fn after_want(self, ns: NamespaceId, hash: ContentHash) -> Self {
        ContentView {
            state: if self.state.contains_key(hash) {
                self.state
            } else {
                self.state.insert(hash, State::Wanted)
            },
            references: self.references.insert((ns, hash)),
        }
    }

    /// The bytes of `hash` are in the local store.
    pub open spec fn after_mark_present(self, hash: ContentHash) -> Self {
        if self.state.contains_key(hash) {
            ContentView { state: self.state.insert(hash, State::Present), ..self }
        } else {
            self
        }
    }

    /// `ns` no longer references `hash`.
    pub open spec fn after_forget(self, ns: NamespaceId, hash: ContentHash) -> Self {
        let left = ContentView { references: self.references.remove((ns, hash)), ..self };
        if left.is_referenced(hash) {
            left
        } else {
            ContentView { state: self.state.remove(hash), ..left }
        }
    }
}

impl View for ContentIndex {
    type V = ContentView;

    closed spec fn view(&self) -> ContentView {
        ContentView { state: self.state@, references: self.references@.to_set() }
    }
}

impl ContentIndex {
    /// The tracked hashes are the referenced ones, and nothing is recorded twice.
    pub closed spec fn wf(&self) -> bool {
        &&& self.state.wf()
        &&& self.references@.no_duplicates()
        &&& self@.consistent()
    }

    /// A well-formed index is consistent.
    pub proof fn lemma_consistent(&self)
        requires
            self.wf(),
        ensures
            self@.consistent(),
    {
    }

    /// An index that tracks nothing.
    pub fn new() -> (r: Self)
        ensures
            r.wf(),
            r@ == ContentView::empty(),
    {
        let r = ContentIndex { state: Table::new(), references: Vec::new() };
        assert(r@ =~= ContentView::empty());
        r
    }

    fn find(&self, ns: &NamespaceId, hash: &ContentHash) -> (r: Option<usize>)
        ensures
            match r {
                Some(i) => i < self.references@.len() && self.references@[i as int] == (*ns, *hash),
                None => !self.references@.contains((*ns, *hash)),
            },
    {
        let mut i: usize = 0;
        while i < self.references.len()
            invariant
                i <= self.references.len(),
                forall|k: int| 0 <= k < i ==> #[trigger] self.references@[k] != (*ns, *hash),
            decreases self.references.len() - i,
        {
            let reference = &self.references[i];
            if same_id(&reference.0, ns) && same_id(&reference.1, hash) {
                return Some(i);
            }
            i = i + 1;
        }
        None
    }

    fn any_reference(&self, hash: &ContentHash) -> (r: bool)
        ensures
            r == self@.is_referenced(*hash),
    {
        let mut i: usize = 0;
        while i < self.references.len()
            invariant
                i <= self.references.len(),
                forall|k: int| 0 <= k < i ==> (#[trigger] self.references@[k]).1 != *hash,
            decreases self.references.len() - i,
        {
            if same_id(&self.references[i].1, hash) {
                let ghost ns = self.references@[i as int].0;
                assert(self.references@[i as int] == (ns, *hash));
                assert(self@.references.contains((ns, *hash)));
                return true;
            }
            i = i + 1;
        }
        false
    }

    /// Records that an entry in `ns` references `hash`. Idempotent, and never downgrades a hash
    /// whose bytes are present.
    pub fn want(&mut self, ns: NamespaceId, hash: ContentHash)
        requires
            old(self).wf(),
        ensures
            final(self).wf(),
            final(self)@ == old(self)@.after_want(ns, hash),
    {
        let ghost before = *self;
        if self.find(&ns, &hash).is_none() {
            self.references.push((ns, hash));
        }
        assert(self.references@.to_set() =~= before.references@.to_set().insert((ns, hash))) by {
            assert forall|x: (NamespaceId, ContentHash)|
                self.references@.contains(x) <==> before.references@.contains(x) || x == (ns, hash) by {
                if x == (ns, hash) && self.references@.len() > before.references@.len() {
                    assert(self.references@.last() == x);
                } else if before.references@.contains(x) {
                    let i = before.references@.index_of(x);
                    assert(self.references@[i] == x);
                }
            }
        }
        if !self.state.contains(&hash) {
            self.state.insert(hash, State::Wanted);
        }
        proof {
            assert(self@ =~= before@.after_want(ns, hash));
            lemma_want_consistent(before@, ns, hash);
        }
    }

    /// Records that the bytes of `hash` are in the local store. Ignores a hash that nothing
    /// references.
    pub fn mark_present(&mut self, hash: ContentHash)
        requires
            old(self).wf(),
        ensures
            final(self).wf(),
            final(self)@ == old(self)@.after_mark_present(hash),
    {
        let ghost before = *self;
        if self.state.contains(&hash) {
            self.state.insert(hash, State::Present);
        }
        proof {
            assert(self@ =~= before@.after_mark_present(hash));
            lemma_mark_present_consistent(before@, hash);
        }
    }

    /// Whether an entry references `hash`.
    pub fn is_tracked(&self, hash: &ContentHash) -> (r: bool)
        requires
            self.wf(),
        ensures
            r == self@.state.contains_key(*hash),
    {
        self.state.contains(hash)
    }

    /// Whether the bytes of `hash` have landed.
    pub fn is_present(&self, hash: &ContentHash) -> (r: bool)
        requires
            self.wf(),
        ensures
            r == (self@.state.contains_key(*hash) && self@.state[*hash] == State::Present),
    {
        match self.state.get(hash) {
            Some(state) => *state == State::Present,
            None => false,
        }
    }

    /// Drops the reference of `ns` to `hash`. The hash stays tracked while any other namespace
    /// references it. Returns whether no reference to it is left.
    pub fn forget(&mut self, ns: &NamespaceId, hash: &ContentHash) -> (r: bool)
        requires
            old(self).wf(),
        ensures
            final(self).wf(),
            final(self)@ == old(self)@.after_forget(*ns, *hash),
            r == !final(self)@.is_referenced(*hash),
    {
        let ghost before = *self;
        match self.find(ns, hash) {
            Some(i) => {
                self.references.remove(i);
                proof {
                    lemma_remove_at(before.references@, i as int);
                }
            },
            None => {},
        }
        assert(self.references@.to_set() =~= before.references@.to_set().remove((*ns, *hash)));
        let left = self.any_reference(hash);
        let ghost dropped = *self;
        assert(dropped@.references == before@.references.remove((*ns, *hash)));
        if !left {
            let _ = self.state.remove(hash);
        }
        proof {
            assert(self@.references == dropped@.references);
            assert(self@ =~= before@.after_forget(*ns, *hash));
            lemma_forget_consistent(before@, *ns, *hash);
        }
        !left
    }

    /// How many referenced blobs are still missing their bytes.
    pub fn missing_count(&self) -> (r: usize)
        requires
            self.wf(),
        ensures
            r == self@.missing().len(),
    {
        let total = self.state.len();
        let ghost keys = self.state.key_order();
        let ghost wanted = |hash: ContentHash| self@.state[hash] == State::Wanted;
        let mut count: usize = 0;
        let mut i: usize = 0;
        proof {
            self.state.lemma_key_order();
        }
        assert(keys.take(0).to_set().filter(wanted) =~= Set::<ContentHash>::empty());
        while i < total
            invariant
                self.wf(),
                keys == self.state.key_order(),
                keys.no_duplicates(),
                total == keys.len(),
                i <= total,
                wanted == (|hash: ContentHash| self@.state[hash] == State::Wanted),
                keys.take(i as int).to_set().filter(wanted).finite(),
                count == keys.take(i as int).to_set().filter(wanted).len(),
                count <= i,
            decreases total - i,
        {
            let (key, state) = self.state.row(i);
            let ghost seen = keys.take(i as int);
            let ghost next = keys.take(i + 1);
            proof {
                assert(next =~= seen.push(*key));
                assert(!seen.contains(*key));
                seen.lemma_push_to_set_commute(*key);
                if wanted(*key) {
                    assert(next.to_set().filter(wanted) =~= seen.to_set().filter(wanted).insert(
                        *key,
                    ));
                } else {
                    assert(next.to_set().filter(wanted) =~= seen.to_set().filter(wanted));
                }
            }
            if *state == State::Wanted {
                count = count + 1;
            }
            i = i + 1;
        }
        proof {
            self.state.lemma_key_order();
            assert(keys.take(keys.len() as int) =~= keys);
        }
        count
    }

    /// How many blobs are referenced, present or not.
    pub fn tracked_count(&self) -> (r: usize)
        requires
            self.wf(),
        ensures
            r == self@.state.dom().len(),
    {
        self.state.len()
    }

    /// Every referenced hash, each once: what garbage collection must keep. A hash whose bytes
    /// are still missing is among them, since its transfer may be in flight.
    pub fn referenced(&self) -> (r: Vec<ContentHash>)
        requires
            self.wf(),
        ensures
            r@.no_duplicates(),
            r@.to_set() == self@.state.dom(),
    {
        self.state.keys()
    }
}

impl Default for ContentIndex {
    fn default() -> (r: Self)
        ensures
            r.wf(),
            r@ == ContentView::empty(),
    {
        Self::new()
    }
}

/// A new reference keeps the tracked hashes equal to the referenced ones.
pub proof fn lemma_want_consistent(v: ContentView, ns: NamespaceId, hash: ContentHash)
    requires
        v.consistent(),
    ensures
        v.after_want(ns, hash).consistent(),
{
    let w = v.after_want(ns, hash);
    assert forall|h: ContentHash| #[trigger] w.state.contains_key(h) <==> w.is_referenced(h) by {
        if v.is_referenced(h) {
            let n = choose|n: NamespaceId| v.references.contains((n, h));
            assert(w.references.contains((n, h)));
        }
        if h == hash {
            assert(w.references.contains((ns, hash)));
        }
        if w.is_referenced(h) && h != hash {
            let n = choose|n: NamespaceId| w.references.contains((n, h));
            assert(v.references.contains((n, h)));
        }
        assert(v.state.contains_key(h) <==> v.is_referenced(h));
    }
}

/// Arrival of bytes keeps the tracked hashes equal to the referenced ones.
pub proof fn lemma_mark_present_consistent(v: ContentView, hash: ContentHash)
    requires
        v.consistent(),
    ensures
        v.after_mark_present(hash).consistent(),
{
    let w = v.after_mark_present(hash);
    assert forall|h: ContentHash| #[trigger] w.state.contains_key(h) <==> w.is_referenced(h) by {
        assert(v.state.contains_key(h) <==> v.is_referenced(h));
        assert(w.references == v.references);
        if v.is_referenced(h) {
            let n = choose|n: NamespaceId| v.references.contains((n, h));
            assert(w.references.contains((n, h)));
        }
        if w.is_referenced(h) {
            let n = choose|n: NamespaceId| w.references.contains((n, h));
            assert(v.references.contains((n, h)));
        }
    }
}

/// Dropping a reference keeps the tracked hashes equal to the referenced ones.
pub proof fn lemma_forget_consistent(v: ContentView, ns: NamespaceId, hash: ContentHash)
    requires
        v.consistent(),
    ensures
        v.after_forget(ns, hash).consistent(),
{
    let w = v.after_forget(ns, hash);
    assert forall|h: ContentHash| #[trigger] w.state.contains_key(h) <==> w.is_referenced(h) by {
        assert(v.state.contains_key(h) <==> v.is_referenced(h));
        if w.is_referenced(h) {
            let n = choose|n: NamespaceId| w.references.contains((n, h));
            assert(v.references.contains((n, h)));
        }
        if h != hash && v.is_referenced(h) {
            let n = choose|n: NamespaceId| v.references.contains((n, h));
            assert(w.references.contains((n, h)));
        }
    }
}

/// Law: recording the same reference again changes nothing.
pub proof fn law_want_is_idempotent(v: ContentView, ns: NamespaceId, hash: ContentHash)
    ensures
        v.after_want(ns, hash).after_want(ns, hash) == v.after_want(ns, hash),
{
    let w = v.after_want(ns, hash);
    assert(w.after_want(ns, hash) =~= w);
}

/// Law: a further reference, from whichever namespace, never turns a present hash into a missing
/// one, and leaves what is known of every other hash alone.
pub proof fn law_want_never_downgrades(v: ContentView, ns: NamespaceId, hash: ContentHash)
    ensures
        forall|h: ContentHash| #[trigger]
            v.state.contains_key(h) ==> v.after_want(ns, hash).state.contains_key(h) && v.after_want(
                ns,
                hash,
            ).state[h] == v.state[h],
        v.after_want(ns, hash).state.dom() == v.state.dom().insert(hash),
{
    assert(v.after_want(ns, hash).state.dom() =~= v.state.dom().insert(hash));
}

/// Law: the bytes of a hash that nothing references are ignored: a stray blob never becomes
/// tracked.
pub proof fn law_stray_blob_is_ignored(v: ContentView, hash: ContentHash)
    requires
        v.consistent(),
        !v.is_referenced(hash),
    ensures
        v.after_mark_present(hash) == v,
{
    assert(!v.state.contains_key(hash));
}

/// Law: the arrival of bytes takes exactly that hash off the missing ones, and tracks and releases
/// nothing.
pub proof fn law_arrival_clears_missing(v: ContentView, hash: ContentHash)
    ensures
        v.after_mark_present(hash).missing() == v.missing().remove(hash),
        v.after_mark_present(hash).state.dom() == v.state.dom(),
        v.after_mark_present(hash).references == v.references,
{
    let w = v.after_mark_present(hash);
    assert(w.missing() =~= v.missing().remove(hash));
    assert(w.state.dom() =~= v.state.dom());
}

/// Law: dropping a reference twice is the same as dropping it once.
pub proof fn law_forget_is_idempotent(v: ContentView, ns: NamespaceId, hash: ContentHash)
    requires
        v.consistent(),
    ensures
        v.after_forget(ns, hash).after_forget(ns, hash) == v.after_forget(ns, hash),
{
    let w = v.after_forget(ns, hash);
    lemma_forget_consistent(v, ns, hash);
    assert(w.references.remove((ns, hash)) =~= w.references);
    let left = ContentView { references: w.references.remove((ns, hash)), ..w };
    assert(left =~= w);
    if !w.is_referenced(hash) {
        assert(!w.state.contains_key(hash));
        assert(w.state.remove(hash) =~= w.state);
    }
}

/// Law: a hash that another namespace references survives, and its presence with it; dropping one
/// reference never touches another hash.
pub proof fn law_shared_hash_survives_forget(
    v: ContentView,
    ns: NamespaceId,
    other: NamespaceId,
    hash: ContentHash,
)
    requires
        ns != other,
        v.references.contains((other, hash)),
    ensures
        v.after_forget(ns, hash).state == v.state,
        v.after_forget(ns, hash).references.contains((other, hash)),
{
    let left = ContentView { references: v.references.remove((ns, hash)), ..v };
    assert(left.references.contains((other, hash)));
    assert(left.is_referenced(hash));
}

/// Law: dropping the last reference untracks exactly that hash.
pub proof fn law_last_forget_releases(v: ContentView, ns: NamespaceId, hash: ContentHash)
    requires
        forall|n: NamespaceId| #[trigger] v.references.contains((n, hash)) ==> n == ns,
    ensures
        !v.after_forget(ns, hash).is_referenced(hash),
        v.after_forget(ns, hash).state == v.state.remove(hash),
{
    let left = ContentView { references: v.references.remove((ns, hash)), ..v };
    if left.is_referenced(hash) {
        let n = choose|n: NamespaceId| left.references.contains((n, hash));
        assert(v.references.contains((n, hash)));
    }
}

/// Law: a new reference adds itself and nothing else; a hash that was not tracked before is wanted.
pub proof fn law_want_adds_one_reference(
    v: ContentView,
    ns: NamespaceId,
    hash: ContentHash,
    other: NamespaceId,
    h: ContentHash,
)
    ensures
        v.after_want(ns, hash).references.contains((other, h)) <==> v.references.contains(
            (other, h),
        ) || (other == ns && h == hash),
        v.after_want(ns, hash).state.contains_key(h) <==> v.state.contains_key(h) || h == hash,
        v.state.contains_key(h) ==> v.after_want(ns, hash).state[h] == v.state[h],
        !v.state.contains_key(hash) ==> v.after_want(ns, hash).state[hash] == State::Wanted,
{
}

/// Law: the arrival of bytes makes a tracked hash present, and changes no other hash.
pub proof fn law_arrival_makes_one_hash_present(v: ContentView, hash: ContentHash, h: ContentHash)
    ensures
        v.after_mark_present(hash).state.contains_key(h) <==> v.state.contains_key(h),
        v.state.contains_key(hash) ==> v.after_mark_present(hash).state[hash] == State::Present,
        h != hash && v.state.contains_key(h) ==> v.after_mark_present(hash).state[h] == v.state[h],
        v.after_mark_present(hash).references == v.references,
{
}

/// Law: dropping a reference drops that one and no other; a hash goes with its last reference, and
/// what is known of one that stays does not change.
pub proof fn law_forget_drops_one_reference(
    v: ContentView,
    ns: NamespaceId,
    hash: ContentHash,
    other: NamespaceId,
    h: ContentHash,
)
    requires
        v.consistent(),
    ensures
        ({
            let w = v.after_forget(ns, hash);
            &&& w.references.contains((other, h)) <==> v.references.contains((other, h)) && !(other
                == ns && h == hash)
            &&& w.state.contains_key(h) <==> exists|n: NamespaceId| #[trigger]
                w.references.contains((n, h))
            &&& w.state.contains_key(h) ==> v.state.contains_key(h) && w.state[h] == v.state[h]
        }),
{
    lemma_forget_consistent(v, ns, hash);
    let w = v.after_forget(ns, hash);
    assert(w.state.contains_key(h) <==> w.is_referenced(h));
}

/// Law: what is missing is what is tracked and wanted.
pub proof fn law_missing_is_what_is_wanted(v: ContentView, hash: ContentHash)
    ensures
        v.missing().contains(hash) <==> v.state.contains_key(hash) && v.state[hash]
            == State::Wanted,
{
}

/// Law: the index answers from what it knows: tracked is what some namespace references, present what
/// of it has landed, and the counts and the list for garbage collection go by the same.
pub proof fn law_index_answers_from_what_it_knows(
    index: ContentIndex,
    hash: ContentHash,
    is_tracked: bool,
    present: bool,
    missing: usize,
    held: usize,
    keep: Vec<ContentHash>,
)
    requires
        index.wf(),
        call_ensures(ContentIndex::is_tracked, (&index, &hash), is_tracked),
        call_ensures(ContentIndex::is_present, (&index, &hash), present),
        call_ensures(ContentIndex::missing_count, (&index,), missing),
        call_ensures(ContentIndex::tracked_count, (&index,), held),
        call_ensures(ContentIndex::referenced, (&index,), keep),
    ensures
        is_tracked <==> exists|ns: NamespaceId| #[trigger]
            index@.references.contains((ns, hash)),
        present <==> is_tracked && index@.state[hash] == State::Present,
        missing == index@.state.dom().filter(|h: ContentHash| index@.state[h] == State::Wanted).len(),
        held == index@.state.dom().len(),
        keep@.contains(hash) <==> is_tracked,
        keep@.len() == held,
{
    index.lemma_consistent();
    assert(index@.state.contains_key(hash) <==> index@.is_referenced(hash));
    assert(index@.missing() =~= index@.state.dom().filter(
        |h: ContentHash| index@.state[h] == State::Wanted,
    ));
    assert(keep@.to_set().contains(hash) <==> keep@.contains(hash));
    keep@.unique_seq_to_set();
}

/// Law: recording a reference adds that one and no other, and makes its hash tracked.
pub proof fn law_wanting_adds_one_reference(
    index: &mut ContentIndex,
    ns: NamespaceId,
    hash: ContentHash,
    other: NamespaceId,
    h: ContentHash,
)
    requires
        call_ensures(ContentIndex::want, (index, ns, hash), ()),
    ensures
        final(index).wf(),
        final(index)@.references.contains((other, h)) <==> old(index)@.references.contains(
            (other, h),
        ) || (other == ns && h == hash),
        final(index)@.state.contains_key(h) <==> old(index)@.state.contains_key(h) || h == hash,
        old(index)@.state.contains_key(h) ==> final(index)@.state[h] == old(index)@.state[h],
        !old(index)@.state.contains_key(hash) ==> final(index)@.state[hash] == State::Wanted,
{
    law_want_adds_one_reference(old(index)@, ns, hash, other, h);
}

/// Law: marking bytes present marks those of one tracked hash, and nothing else.
pub proof fn law_marking_marks_one_hash(
    index: &mut ContentIndex,
    hash: ContentHash,
    h: ContentHash,
)
    requires
        call_ensures(ContentIndex::mark_present, (index, hash), ()),
    ensures
        final(index).wf(),
        final(index)@.references == old(index)@.references,
        final(index)@.state.contains_key(h) <==> old(index)@.state.contains_key(h),
        old(index)@.state.contains_key(hash) ==> final(index)@.state[hash] == State::Present,
        h != hash && old(index)@.state.contains_key(h) ==> final(index)@.state[h]
            == old(index)@.state[h],
{
    law_arrival_makes_one_hash_present(old(index)@, hash, h);
}

/// Law: forgetting drops one reference and tells whether it was the last to its hash.
pub proof fn law_forgetting_drops_one_reference(
    index: &mut ContentIndex,
    ns: NamespaceId,
    hash: ContentHash,
    r: bool,
    other: NamespaceId,
    h: ContentHash,
)
    requires
        old(index).wf(),
        call_ensures(ContentIndex::forget, (index, &ns, &hash), r),
    ensures
        final(index).wf(),
        final(index)@.references.contains((other, h)) <==> old(index)@.references.contains(
            (other, h),
        ) && !(other == ns && h == hash),
        final(index)@.state.contains_key(h) <==> exists|n: NamespaceId| #[trigger]
            final(index)@.references.contains((n, h)),
        final(index)@.state.contains_key(h) ==> old(index)@.state.contains_key(h) && final(index)@.state[h] == old(index)@.state[h],
        r <==> forall|n: NamespaceId|
            n != ns ==> !(#[trigger] old(index)@.references.contains((n, hash))),
{
    old(index).lemma_consistent();
    law_forget_drops_one_reference(old(index)@, ns, hash, other, h);
    let v = old(index)@;
    let w = final(index)@;
    if !r {
        let n = choose|n: NamespaceId| #[trigger] w.references.contains((n, hash));
        assert(v.references.contains((n, hash)));
    } else {
        assert forall|n: NamespaceId| n != ns implies !(#[trigger] v.references.contains(
            (n, hash),
        )) by {
            if v.references.contains((n, hash)) {
                assert(w.references.contains((n, hash)));
                assert(w.is_referenced(hash));
            }
        }
    }
}

} // verus!
