//! A map keyed by text (symbols, account ids, strategy ids) that keeps its
//! entries in insertion order and never holds a key twice.

use vstd::prelude::*;
use vstd::pervasive::VecAdditionalExecFns;
use crate::text::str_eq;

verus! {

/// Entries `(key, value)` with pairwise distinct keys, in insertion order.
pub struct KeyedMap<V> {
    keys: Vec<String>,
    values: Vec<V>,
}

impl<V> KeyedMap<V> {
    /// The keys, as text, in insertion order.
    pub closed spec fn key_list(&self) -> Seq<Seq<char>> {
        Seq::new(self.keys@.len(), |i: int| self.keys@[i]@)
    }

    /// The values, position by position with `key_list`.
    pub closed spec fn value_list(&self) -> Seq<V> {
        self.values@
    }

    /// One value per key and no key twice.
    #[verifier::type_invariant]
    spec fn wf(&self) -> bool {
        &&& self.keys@.len() == self.values@.len()
        &&& forall|i: int, j: int|
            0 <= i < j < self.keys@.len() ==> self.keys@[i]@ != self.keys@[j]@
    }

    /// The position of key `k` (meaningful when `k` is present).
    pub open spec fn index_of(&self, k: Seq<char>) -> int {
        choose|i: int| 0 <= i < self.key_list().len() && self.key_list()[i] == k
    }

    /// The map these entries stand for.
    pub open spec fn as_map(&self) -> Map<Seq<char>, V> {
        Map::new(
            |k: Seq<char>| self.key_list().contains(k),
            |k: Seq<char>| self.value_list()[self.index_of(k)],
        )
    }

    proof fn lemma_wf_facts(&self)
        requires
            self.wf(),
        ensures
            self.key_list().len() == self.value_list().len(),
            self.key_list().no_duplicates(),
            forall|i: int|
                0 <= i < self.key_list().len() ==> self.index_of(#[trigger] self.key_list()[i])
                    == i,
    {
        assert forall|i: int| 0 <= i < self.key_list().len() implies self.index_of(
            #[trigger] self.key_list()[i],
        ) == i by {
            let k = self.key_list()[i];
            assert(self.key_list()[i] == k);
            let j = self.index_of(k);
            if j != i {
                if j < i {
                    assert(self.keys@[j]@ != self.keys@[i]@);
                } else {
                    assert(self.keys@[i]@ != self.keys@[j]@);
                }
            }
        }
    }

    /// An empty map.
    pub fn new() -> (m: Self)
        ensures
            m.key_list() == Seq::<Seq<char>>::empty(),
            m.as_map() == Map::<Seq<char>, V>::empty(),
    {
        let m = KeyedMap { keys: Vec::new(), values: Vec::new() };
        assert(m.key_list() =~= Seq::<Seq<char>>::empty());
        assert(m.as_map() =~= Map::<Seq<char>, V>::empty());
        m
    }

    /// The number of entries.
    pub fn len(&self) -> (n: usize)
        ensures
            n == self.key_list().len(),
            n == self.as_map().len(),
    {
        proof {
            use_type_invariant(self);
            self.lemma_wf_facts();
            self.key_list().unique_seq_to_set();
            assert(self.as_map().dom() =~= self.key_list().to_set());
        }
        self.keys.len()
    }

    /// The position of `key`, if present.
    pub fn find(&self, key: &str) -> (r: Option<usize>)
        ensures
            r matches Some(i) ==> i < self.key_list().len() && self.key_list()[i as int] == key@
                && self.index_of(key@) == i,
            r is None ==> !self.key_list().contains(key@),
    {
        proof {
            use_type_invariant(&*self);
            self.lemma_wf_facts();
        }
        let mut i: usize = 0;
        while i < self.keys.len()
            invariant
                self.wf(),
                i <= self.keys@.len(),
                forall|j: int| 0 <= j < i ==> self.key_list()[j] != key@,
            decreases self.keys@.len() - i,
        {
            if str_eq(self.keys[i].as_str(), key) {
                proof {
                    self.lemma_wf_facts();
                    assert(self.key_list()[i as int] == key@);
                }
                return Some(i);
            }
            i = i + 1;
        }
        proof {
            if self.key_list().contains(key@) {
                let j = choose|j: int| 0 <= j < self.key_list().len() && self.key_list()[j] == key@;
                assert(self.key_list()[j] != key@);
            }
        }
        None
    }

    /// Whether `key` is present.
    pub fn contains_key(&self, key: &str) -> (b: bool)
        ensures
            b == self.as_map().dom().contains(key@),
    {
        self.find(key).is_some()
    }

    /// The value stored under `key`.
    pub fn get(&self, key: &str) -> (r: Option<&V>)
        ensures
            r matches Some(v) ==> self.as_map().dom().contains(key@) && *v == self.as_map()[key@],
            r is None ==> !self.as_map().dom().contains(key@),
    {
        proof {
            use_type_invariant(self);
        }
        match self.find(key) {
            Some(i) => Some(&self.values[i]),
            None => None,
        }
    }

    /// The key at position `i`.
    pub fn key_at(&self, i: usize) -> (k: &String)
        requires
            i < self.key_list().len(),
        ensures
            k@ == self.key_list()[i as int],
    {
        proof {
            use_type_invariant(self);
        }
        &self.keys[i]
    }

    /// The value at position `i`.
    pub fn value_at(&self, i: usize) -> (v: &V)
        requires
            i < self.key_list().len(),
        ensures
            *v == self.value_list()[i as int],
    {
        proof {
            use_type_invariant(self);
        }
        &self.values[i]
    }

    /// Mutable access to the value at position `i`; keys stay as they are.
    pub fn value_at_mut(&mut self, i: usize) -> (v: &mut V)
        requires
            i < old(self).key_list().len(),
        ensures
            *v == old(self).value_list()[i as int],
            final(self).key_list() == old(self).key_list(),
            final(self).value_list() == old(self).value_list().update(i as int, *final(v)),
    {
        proof {
            use_type_invariant(&*self);
        }
        &mut self.values[i]
    }

    /// Stores `value` under `key`; returns the value it replaces, if any.
    /// A new key goes last; an existing key keeps its position.
    pub fn insert(&mut self, key: String, value: V) -> (old_value: Option<V>)
        ensures
            final(self).as_map() == old(self).as_map().insert(key@, value),
            old(self).key_list().contains(key@) ==> final(self).key_list() == old(
                self,
            ).key_list() && old_value == Some(old(self).as_map()[key@]),
            !old(self).key_list().contains(key@) ==> final(self).key_list() == old(
                self,
            ).key_list().push(key@) && old_value is None,
    {
        proof {
            use_type_invariant(&*self);
            self.lemma_wf_facts();
        }
        match self.find(key.as_str()) {
            Some(i) => {
                let mut v = value;
                let mut taken = KeyedMap::new();
                std::mem::swap(self, &mut taken);
                let KeyedMap { keys, mut values } = taken;
                values.set_and_swap(i, &mut v);
                *self = KeyedMap { keys, values };
                proof {
                    self.lemma_wf_facts();
                    assert(self.key_list() =~= old(self).key_list());
                    assert(self.as_map() =~= old(self).as_map().insert(key@, value));
                }
                Some(v)
            },
            None => {
                let ghost k = key@;
                let mut taken = KeyedMap::new();
                std::mem::swap(self, &mut taken);
                let KeyedMap { mut keys, mut values } = taken;
                keys.push(key);
                values.push(value);
                proof {
                    assert forall|a: int, b: int|
                        0 <= a < b < keys@.len() implies keys@[a]@ != keys@[b]@ by {
                        if b == keys@.len() - 1 {
                            assert(old(self).key_list()[a] == keys@[a]@);
                        }
                    }
                }
                *self = KeyedMap { keys, values };
                proof {
                    assert(self.key_list() =~= old(self).key_list().push(k));
                    self.lemma_wf_facts();
                    old(self).lemma_wf_facts();
                    let n = old(self).key_list().len();
                    assert(self.key_list()[n as int] == k);
                    assert forall|q: Seq<char>| #[trigger] old(self).key_list().contains(q) implies
                        self.index_of(q) == old(self).index_of(q) by {
                        let j = choose|j: int| 0 <= j < n && old(self).key_list()[j] == q;
                        assert(self.key_list()[j] == q);
                    }
                    assert forall|q: Seq<char>| #[trigger] self.key_list().contains(q) implies
                        old(self).key_list().contains(q) || q == k by {
                        let j = choose|j: int| 0 <= j < self.key_list().len() && self.key_list()[j] == q;
                        if j < n {
                            assert(old(self).key_list()[j] == q);
                        }
                    }
                    assert(self.key_list().contains(k));
                    assert(self.index_of(k) == n);
                    assert forall|q: Seq<char>| #[trigger] old(self).key_list().contains(q) implies
                        self.key_list().contains(q) by {
                        let j = choose|j: int| 0 <= j < n && old(self).key_list()[j] == q;
                        assert(self.key_list()[j] == q);
                    }
                    assert(self.as_map() =~= old(self).as_map().insert(k, value));
                }
                None
            },
        }
    }

    /// Removes `key`; returns its value, if it was present.
    pub fn remove(&mut self, key: &str) -> (r: Option<V>)
        ensures
            final(self).as_map() == old(self).as_map().remove(key@),
            r matches Some(v) ==> old(self).as_map().dom().contains(key@) && v == old(
                self,
            ).as_map()[key@],
            r is None ==> !old(self).as_map().dom().contains(key@),
    {
        proof {
            use_type_invariant(&*self);
            self.lemma_wf_facts();
        }
        match self.find(key) {
            Some(i) => {
                let mut taken = KeyedMap::new();
                std::mem::swap(self, &mut taken);
                let KeyedMap { mut keys, mut values } = taken;
                let _k = keys.remove(i);
                let v = values.remove(i);
                proof {
                    assert forall|a: int, b: int|
                        0 <= a < b < keys@.len() implies keys@[a]@ != keys@[b]@ by {
                        let oa = if a < i { a } else { a + 1 };
                        let ob = if b < i { b } else { b + 1 };
                        assert(old(self).keys@[oa]@ != old(self).keys@[ob]@);
                    }
                }
                *self = KeyedMap { keys, values };
                proof {
                    assert(self.key_list() =~= old(self).key_list().remove(i as int));
                    self.lemma_wf_facts();
                    old(self).lemma_wf_facts();
                    assert forall|q: Seq<char>| #[trigger] self.key_list().contains(q) implies
                        old(self).key_list().contains(q) && q != key@ && self.value_list()[self.index_of(q)]
                            == old(self).value_list()[old(self).index_of(q)] by {
                        let j = choose|j: int| 0 <= j < self.key_list().len() && self.key_list()[j] == q;
                        let oj = if j < i { j } else { j + 1 };
                        assert(old(self).key_list()[oj] == q);
                    }
                    assert forall|q: Seq<char>| #[trigger] old(self).key_list().contains(q) && q != key@
                        implies self.key_list().contains(q) by {
                        let oj = choose|j: int| 0 <= j < old(self).key_list().len() && old(self).key_list()[j] == q;
                        assert(oj != i);
                        let j = if oj < i { oj } else { oj - 1 };
                        assert(self.key_list()[j] == q);
                    }
                    assert(self.as_map() =~= old(self).as_map().remove(key@));
                }
                Some(v)
            },
            None => {
                proof {
                    assert(self.as_map() =~= old(self).as_map().remove(key@));
                }
                None
            },
        }
    }

    /// Removes every entry.
    pub fn clear(&mut self)
        ensures
            final(self).as_map() == Map::<Seq<char>, V>::empty(),
            final(self).key_list() == Seq::<Seq<char>>::empty(),
    {
        *self = KeyedMap::new();
        assert(self.key_list() =~= Seq::<Seq<char>>::empty());
        assert(self.as_map() =~= Map::<Seq<char>, V>::empty());
    }
}

} // verus!
