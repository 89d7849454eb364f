//! A small string-keyed map kept as a list of entries with distinct keys.
//!
//! Character sheets key their skills, saving throws and custom fields by a
//! stable id; this is the collection that holds them.
use vstd::prelude::*;
use vstd::string::*;

use crate::text::str_eq;

verus! {

/// Entries `(key, value)` whose keys are pairwise distinct.
pub struct KeyedMap<V> {
    pub entries: Vec<(String, V)>,
}

impl<V: DeepView> DeepView for KeyedMap<V> {
    type V = Seq<(Seq<char>, V::V)>;

    open spec fn deep_view(&self) -> Seq<(Seq<char>, V::V)> {
        self.entries.deep_view()
    }
}

impl<V> KeyedMap<V> {
    /// The keys of the entries, in order.
    pub open spec fn keys(&self) -> Seq<Seq<char>> {
        self.entries@.map_values(|e: (String, V)| e.0@)
    }

    /// Whether the keys are pairwise distinct.
    pub open spec fn wf(&self) -> bool {
        forall|i: int, j: int|
            0 <= i < j < self.entries@.len() ==> self.entries@[i].0@ != self.entries@[j].0@
    }

    /// Whether `k` is one of the keys.
    pub open spec fn contains(&self, k: Seq<char>) -> bool {
        exists|i: int| 0 <= i < self.entries@.len() && #[trigger] self.entries@[i].0@ == k
    }

    /// The position of the first entry with key `k`.
    pub open spec fn index_of(&self, k: Seq<char>) -> int {
        choose|i: int|
            0 <= i < self.entries@.len() && #[trigger] self.entries@[i].0@ == k && forall|j: int|
                0 <= j < i ==> self.entries@[j].0@ != k
    }

    /// The map from each key to the value of its first entry.
    pub open spec fn as_map(&self) -> Map<Seq<char>, V> {
        Map::new(|k: Seq<char>| self.contains(k), |k: Seq<char>| self.entries@[self.index_of(k)].1)
    }

    /// The first entry with a key is at `index_of` of that key.
    pub proof fn lemma_index_of(&self, k: Seq<char>, i: int)
        requires
            0 <= i < self.entries@.len(),
            self.entries@[i].0@ == k,
            forall|j: int| 0 <= j < i ==> self.entries@[j].0@ != k,
        ensures
            self.index_of(k) == i,
    {
        let c = self.index_of(k);
        assert(0 <= c < self.entries@.len() && self.entries@[c].0@ == k);
        if c < i {
            assert(self.entries@[c].0@ != k);
        }
        if i < c {
            assert(self.entries@[i].0@ != k);
        }
    }

    /// A key that occurs has a first entry, at `index_of`.
    pub proof fn lemma_index_of_found(&self, k: Seq<char>, i: int)
        requires
            0 <= i < self.entries@.len(),
            self.entries@[i].0@ == k,
        ensures
            0 <= self.index_of(k) <= i,
            self.entries@[self.index_of(k)].0@ == k,
        decreases i,
    {
        if exists|j: int| 0 <= j < i && #[trigger] self.entries@[j].0@ == k {
            let j = choose|j: int| 0 <= j < i && #[trigger] self.entries@[j].0@ == k;
            self.lemma_index_of_found(k, j);
        } else {
            self.lemma_index_of(k, i);
        }
    }

    /// Two maps with the same keys in the same order are equally well formed.
    pub proof fn lemma_wf_same_keys(&self, other: &Self)
        requires
            self.keys() == other.keys(),
        ensures
            self.wf() == other.wf(),
    {
        assert(self.keys().len() == self.entries@.len());
        assert(other.keys().len() == other.entries@.len());
        assert forall|i: int| 0 <= i < self.entries@.len() implies self.entries@[i].0@
            == other.entries@[i].0@ by {
            assert(self.keys()[i] == self.entries@[i].0@);
            assert(other.keys()[i] == other.entries@[i].0@);
        }
    }

    /// The keys of a well-formed map are its domain, one per entry.
    pub proof fn lemma_as_map_len(&self)
        requires
            self.wf(),
        ensures
            self.as_map().dom() == self.keys().to_set(),
            self.as_map().dom().len() == self.entries@.len(),
    {
        assert forall|k: Seq<char>| #[trigger] self.as_map().dom().contains(k) == self.keys().to_set().contains(k) by {
            if self.contains(k) {
                let i = choose|i: int| 0 <= i < self.entries@.len() && #[trigger] self.entries@[i].0@ == k;
                assert(self.keys()[i] == k);
            }
            if self.keys().contains(k) {
                let i = choose|i: int| 0 <= i < self.keys().len() && self.keys()[i] == k;
                assert(self.entries@[i].0@ == k);
            }
        }
        assert(self.as_map().dom() =~= self.keys().to_set());
        assert(self.keys().no_duplicates()) by {
            assert forall|i: int, j: int| 0 <= i < self.keys().len() && 0 <= j < self.keys().len() && i != j
                implies self.keys()[i] != self.keys()[j] by {
                if i < j {
                    assert(self.entries@[i].0@ != self.entries@[j].0@);
                } else {
                    assert(self.entries@[j].0@ != self.entries@[i].0@);
                }
            }
        }
        self.keys().unique_seq_to_set();
    }

    /// An empty map.
    pub fn new() -> (r: Self)
        ensures
            r.entries@.len() == 0,
            r.wf(),
    {
        KeyedMap { entries: Vec::new() }
    }

    /// The number of entries.
    pub fn len(&self) -> (r: usize)
        ensures
            r == self.entries@.len(),
    {
        self.entries.len()
    }

    /// The position of the entry with key `key`, if there is one.
    pub fn position(&self, key: &str) -> (r: Option<usize>)
        ensures
            r matches Some(i) ==> i < self.entries@.len() && self.entries@[i as int].0@ == key@
                && forall|k: int| 0 <= k < i ==> self.entries@[k].0@ != key@,
            r is None ==> !self.contains(key@),
    {
        let n = self.entries.len();
        let mut i: usize = 0;
        while i < n
            invariant
                n == self.entries@.len(),
                i <= n,
                forall|k: int| 0 <= k < i ==> self.entries@[k].0@ != key@,
            decreases n - i,
        {
            if str_eq(self.entries[i].0.as_str(), key) {
                return Some(i);
            }
            i = i + 1;
        }
        None
    }

    /// The value stored under `key` (`HashMap::get`).
    pub fn get(&self, key: &str) -> (r: Option<&V>)
        ensures
            r is Some <==> self.as_map().dom().contains(key@),
            r matches Some(v) ==> *v == self.as_map()[key@],
    {
        match self.position(key) {
            Some(i) => {
                proof {
                    self.lemma_index_of(key@, i as int);
                }
                Some(&self.entries[i].1)
            },
            None => None,
        }
    }

    /// Stores `value` under `key`, replacing the value already there
    /// (`HashMap::insert`).
    pub fn insert(&mut self, key: String, value: V)
        requires
            old(self).wf(),
        ensures
            final(self).wf(),
            final(self).as_map() == old(self).as_map().insert(key@, value),
            final(self).contains(key@),
            old(self).contains(key@) ==> final(self).entries@.len() == old(self).entries@.len(),
            !old(self).contains(key@) ==> final(self).entries@ == old(self).entries@.push(
                (key, value),
            ),
            forall|i: int|
                0 <= i < final(self).entries@.len() ==> (#[trigger] final(self).entries@[i].0@
                    == key@ && final(self).entries@[i].1 == value) || (i < old(
                    self,
                ).entries@.len() && final(self).entries@[i] == old(self).entries@[i]
                    && old(self).entries@[i].0@ != key@),
            forall|i: int|
                0 <= i < old(self).entries@.len() && old(self).entries@[i].0@ != key@
                    ==> final(self).entries@[i] == old(self).entries@[i],
    {
        let ghost k = key@;
        let ghost v = value;
        let ghost before = *self;
        match self.position(key.as_str()) {
            Some(i) => {
                self.entries.set(i, (key, value));
                assert(self.entries@[i as int].0@ == k);
                assert(self.contains(k));
            },
            None => {
                self.entries.push((key, value));
                let ghost last = self.entries@.len() - 1;
                assert(self.entries@[last].0@ == k);
                assert(self.contains(k));
            },
        }
        proof {
            let after = *self;
            assert forall|q: Seq<char>| #[trigger] after.contains(q) == (before.contains(q) || q == k) by {
                if before.contains(q) {
                    let i = choose|i: int| 0 <= i < before.entries@.len() && #[trigger] before.entries@[i].0@ == q;
                    assert(after.entries@[i].0@ == q);
                }
                if after.contains(q) && q != k {
                    let i = choose|i: int| 0 <= i < after.entries@.len() && #[trigger] after.entries@[i].0@ == q;
                    assert(before.entries@[i].0@ == q);
                }
            }
            assert forall|q: Seq<char>| after.contains(q) implies #[trigger] after.as_map()[q]
                == before.as_map().insert(k, v)[q] by {
                let i = choose|i: int| 0 <= i < after.entries@.len() && #[trigger] after.entries@[i].0@ == q;
                assert forall|j: int| 0 <= j < i implies after.entries@[j].0@ != q by {}
                after.lemma_index_of(q, i);
                if q != k {
                    assert(before.entries@[i].0@ == q);
                    assert forall|j: int| 0 <= j < i implies before.entries@[j].0@ != q by {}
                    before.lemma_index_of(q, i);
                }
            }
            assert(after.as_map() =~= before.as_map().insert(k, v));
        }
    }
}

/// After storing `v` under `k`, looking up `k` gives `v`, and every other
/// key gives what it gave before.
pub proof fn law_insert_then_get<V>(m: Map<Seq<char>, V>, k: Seq<char>, v: V, other: Seq<char>)
    requires
        other != k,
    ensures
        m.insert(k, v).dom().contains(k) && m.insert(k, v)[k] == v,
        m.insert(k, v).dom().contains(other) == m.dom().contains(other),
        m.dom().contains(other) ==> m.insert(k, v)[other] == m[other],
{
}

} // verus!
