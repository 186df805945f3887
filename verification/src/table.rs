//! An in-memory map keyed by 32-byte identifiers, and comparison of those identifiers.

use vstd::prelude::*;

verus! {

/// A 32-byte identifier: a namespace id, a content hash or an endpoint id.
pub type Id = [u8; 32];

/// Whether two identifiers are the same.
pub fn same_id(a: &Id, b: &Id) -> (r: bool)
    ensures
        r == (*a == *b),
{
    let mut i: usize = 0;
    while i < 32
        invariant
            i <= 32,
            forall|k: int| 0 <= k < i ==> #[trigger] a@[k] == b@[k],
        decreases 32 - i,
    {
        if a[i] != b[i] {
            assert(a@[i as int] != b@[i as int]);
            return false;
        }
        i = i + 1;
    }
    assert(a@ =~= b@);
    assert(*a =~= *b);
    true
}

/// Removing a position of a sequence without duplicates removes that element from its set.
pub proof fn lemma_remove_at<A>(s: Seq<A>, i: int)
    requires
        s.no_duplicates(),
        0 <= i < s.len(),
    ensures
        s.remove(i).no_duplicates(),
        s.remove(i).to_set() == s.to_set().remove(s[i]),
{
    let t = s.remove(i);
    assert forall|x: A| t.contains(x) <==> s.contains(x) && x != s[i] by {
        if t.contains(x) {
            let k = t.index_of(x);
            let p = if k < i {
                k
            } else {
                k + 1
            };
            assert(s[p] == x);
        }
        if s.contains(x) && x != s[i] {
            let k = s.index_of(x);
            let p = if k < i {
                k
            } else {
                k - 1
            };
            assert(t[p] == x);
        }
    }
    assert(t.to_set() =~= s.to_set().remove(s[i]));
}

/// A map from identifiers to values.
#[derive(Debug)]
pub struct Table<V> {
    rows: Vec<(Id, V)>,
}

impl<V> Table<V> {
    /// The keys, in the order in which the rows stand.
    pub closed spec fn key_order(&self) -> Seq<Id> {
        self.rows@.map_values(|row: (Id, V)| row.0)
    }

    /// No key stands twice.
    pub closed spec fn wf(&self) -> bool {
        self.key_order().no_duplicates()
    }

    spec fn position_of(&self, key: Id) -> int {
        self.key_order().index_of(key)
    }
}

impl<V> View for Table<V> {
    type V = Map<Id, V>;

    closed spec fn view(&self) -> Map<Id, V> {
        Map::new(
            |key: Id| self.key_order().contains(key),
            |key: Id| self.rows@[self.position_of(key)].1,
        )
    }
}

impl<V> Table<V> {
    /// The row at `i` holds the value of its key.
    proof fn lemma_row(&self, i: int)
        requires
            self.wf(),
            0 <= i < self.rows@.len(),
        ensures
            self.key_order()[i] == self.rows@[i].0,
            self@.contains_key(self.rows@[i].0),
            self@[self.rows@[i].0] == self.rows@[i].1,
            self.position_of(self.rows@[i].0) == i,
    {
        let keys = self.key_order();
        let key = self.rows@[i].0;
        assert(keys[i] == key);
        assert(keys.contains(key));
        let p = self.position_of(key);
        assert(0 <= p < keys.len() && keys[p] == key);
    }

    /// Every key has a row.
    proof fn lemma_key(&self, key: Id)
        requires
            self.wf(),
            self@.contains_key(key),
        ensures
            0 <= self.position_of(key) < self.rows@.len(),
            self.rows@[self.position_of(key)].0 == key,
            self@[key] == self.rows@[self.position_of(key)].1,
    {
    }

    /// The keys in row order are the domain, each once.
    pub proof fn lemma_key_order(&self)
        requires
            self.wf(),
        ensures
            self.key_order().no_duplicates(),
            self.key_order().to_set() == self@.dom(),
            self@.dom().finite(),
            self@.dom().len() == self.key_order().len(),
    {
        let keys = self.key_order();
        keys.unique_seq_to_set();
        assert(keys.to_set() =~= self@.dom());
    }

    /// An empty table.
    pub fn new() -> (r: Self)
        ensures
            r.wf(),
            r@ == Map::<Id, V>::empty(),
    {
        let r = Table { rows: Vec::new() };
        assert(r@ =~= Map::<Id, V>::empty());
        r
    }

    /// How many keys there are.
    pub fn len(&self) -> (r: usize)
        requires
            self.wf(),
        ensures
            r == self@.dom().len(),
            r == self.key_order().len(),
            self@.dom().finite(),
    {
        proof {
            self.lemma_key_order();
        }
        self.rows.len()
    }

    /// The key and value of the row at `i`.
    pub fn row(&self, i: usize) -> (r: (&Id, &V))
        requires
            self.wf(),
            i < self.key_order().len(),
        ensures
            *r.0 == self.key_order()[i as int],
            self@.contains_key(*r.0),
            *r.1 == self@[*r.0],
    {
        proof {
            self.lemma_row(i as int);
        }
        let row = &self.rows[i];
        (&row.0, &row.1)
    }

    fn find(&self, key: &Id) -> (r: Option<usize>)
        requires
            self.wf(),
        ensures
            match r {
                Some(i) => i < self.rows@.len() && self.rows@[i as int].0 == *key
                    && self@.contains_key(*key) && i == self.position_of(*key),
                None => !self@.contains_key(*key),
            },
    {
        let mut i: usize = 0;
        while i < self.rows.len()
            invariant
                self.wf(),
                i <= self.rows.len(),
                forall|k: int| 0 <= k < i ==> (#[trigger] self.rows@[k]).0 != *key,
            decreases self.rows.len() - i,
        {
            if same_id(&self.rows[i].0, key) {
                proof {
                    self.lemma_row(i as int);
                }
                return Some(i);
            }
            i = i + 1;
        }
        proof {
            if self@.contains_key(*key) {
                self.lemma_key(*key);
            }
        }
        None
    }

    /// Whether `key` has a value.
    pub fn contains(&self, key: &Id) -> (r: bool)
        requires
            self.wf(),
        ensures
            r == self@.contains_key(*key),
    {
        self.find(key).is_some()
    }

    /// The value of `key`.
    pub fn get(&self, key: &Id) -> (r: Option<&V>)
        requires
            self.wf(),
        ensures
            match r {
                Some(v) => self@.contains_key(*key) && *v == self@[*key],
                None => !self@.contains_key(*key),
            },
    {
        match self.find(key) {
            Some(i) => {
                proof {
                    self.lemma_row(i as int);
                }
                Some(&self.rows[i].1)
            },
            None => None,
        }
    }

    /// Gives `key` the value `value`, in place of the one it had.
    pub fn insert(&mut self, key: Id, value: V)
        requires
            old(self).wf(),
        ensures
            final(self).wf(),
            final(self)@ == old(self)@.insert(key, value),
    {
        let ghost before = *self;
        match self.find(&key) {
            Some(i) => {
                self.rows.set(i, (key, value));
                proof {
                    assert(self.key_order() =~= before.key_order());
                    assert forall|k: Id| before@.contains_key(k) implies self@[k]
                        == before@.insert(key, value)[k] by {
                        before.lemma_key(k);
                        self.lemma_row(before.position_of(k));
                        self.lemma_row(i as int);
                    }
                    assert(self@ =~= before@.insert(key, value));
                }
            },
            None => {
                self.rows.push((key, value));
                proof {
                    assert(self.key_order() =~= before.key_order().push(key));
                    assert(self.key_order().no_duplicates()) by {
                        assert(!before.key_order().contains(key));
                    }
                    assert forall|k: Id| #[trigger] before@.contains_key(k) implies self@.contains_key(k)
                        && self@[k] == before@[k] by {
                        before.lemma_key(k);
                        self.lemma_row(before.position_of(k));
                    }
                    self.lemma_row(self.rows@.len() - 1);
                    assert forall|k: Id| #[trigger] self@.contains_key(k) implies k == key
                        || before@.contains_key(k) by {
                        self.lemma_key(k);
                        let p = self.position_of(k);
                        if p < before.rows@.len() {
                            before.lemma_row(p);
                        }
                    }
                    assert(self@ =~= before@.insert(key, value));
                }
            },
        }
    }

    /// Takes `key` and its value out.
    pub fn remove(&mut self, key: &Id) -> (r: Option<V>)
        requires
            old(self).wf(),
        ensures
            final(self).wf(),
            final(self)@ == old(self)@.remove(*key),
            match r {
                Some(v) => old(self)@.contains_key(*key) && v == old(self)@[*key],
                None => !old(self)@.contains_key(*key),
            },
    {
        let ghost before = *self;
        match self.find(key) {
            Some(i) => {
                let row = self.rows.remove(i);
                proof {
                    before.lemma_row(i as int);
                    assert(self.key_order() =~= before.key_order().remove(i as int));
                    assert forall|k: Id| before@.remove(*key).contains_key(k) implies (
                    #[trigger] self@.contains_key(k)) && self@[k] == before@[k] by {
                        before.lemma_key(k);
                        let p = before.position_of(k);
                        self.lemma_row(if p < i {
                            p
                        } else {
                            p - 1
                        });
                    }
                    assert forall|k: Id| #[trigger] self@.contains_key(k) implies k != *key
                        && before@.contains_key(k) by {
                        self.lemma_key(k);
                        let p = self.position_of(k);
                        before.lemma_row(if p < i {
                            p
                        } else {
                            p + 1
                        });
                        before.lemma_row(i as int);
                    }
                    assert(self@ =~= before@.remove(*key));
                }
                Some(row.1)
            },
            None => {
                assert(self@ =~= before@.remove(*key));
                None
            },
        }
    }

    /// Every key, each once.
    pub fn keys(&self) -> (r: Vec<Id>)
        requires
            self.wf(),
        ensures
            r@ == self.key_order(),
            r@.no_duplicates(),
            r@.to_set() == self@.dom(),
    {
        let mut out: Vec<Id> = Vec::new();
        let mut i: usize = 0;
        while i < self.rows.len()
            invariant
                i <= self.rows.len(),
                out@ == self.key_order().take(i as int),
            decreases self.rows.len() - i,
        {
            out.push(self.rows[i].0);
            assert(out@ =~= self.key_order().take(i + 1));
            i = i + 1;
        }
        proof {
            self.lemma_key_order();
            assert(self.key_order().take(self.rows@.len() as int) =~= self.key_order());
        }
        out
    }
}

} // verus!
