//! A map keyed by strings, kept as a list of entries in which no key occurs
//! twice. It stands in for the `HashMap<String, _>` fields of the server's
//! JSON files, whose lookups Verus cannot relate to the text of `String`
//! keys; entries keep the order in which their keys were first inserted.

use vstd::prelude::*;

verus! {

/// Entries `(key, value)`, each key once.
pub struct StrMap<V: View> {
    entries: Vec<(String, V)>,
}

impl<V: View> View for StrMap<V> {
    type V = Map<Seq<char>, V::V>;

    closed spec fn view(&self) -> Map<Seq<char>, V::V> {
        Map::new(
            |k: Seq<char>| self.key_seq().contains(k),
            |k: Seq<char>| self.entries@[self.key_seq().index_of(k)].1@,
        )
    }
}

impl<V: View> StrMap<V> {
    /// The keys, in entry order.
    pub closed spec fn key_seq(&self) -> Seq<Seq<char>> {
        self.entries@.map_values(|e: (String, V)| e.0@)
    }

    /// The values' views, in entry order.
    pub closed spec fn value_seq(&self) -> Seq<V::V> {
        self.entries@.map_values(|e: (String, V)| e.1@)
    }

    #[verifier::type_invariant]
    closed spec fn keys_unique(&self) -> bool {
        self.key_seq().no_duplicates()
    }

    /// What every `StrMap` satisfies: each key once, and the view maps the
    /// key at each position to the value at that position.
    pub open spec fn consistent(&self) -> bool {
        &&& self.key_seq().no_duplicates()
        &&& self.key_seq().len() == self.value_seq().len()
        &&& forall|k: Seq<char>| #[trigger] self@.contains_key(k) <==> self.key_seq().contains(k)
        &&& forall|i: int|
            0 <= i < self.key_seq().len() ==> #[trigger] self@[self.key_seq()[i]]
                == self.value_seq()[i]
    }

    proof fn lemma_consistent(&self)
        requires
            self.keys_unique(),
        ensures
            self.consistent(),
    {
        assert forall|i: int| 0 <= i < self.key_seq().len() implies #[trigger] self@[self.key_seq()[i]]
            == self.value_seq()[i] by {
            let k = self.key_seq()[i];
            assert(self.key_seq().contains(k));
            let j = self.key_seq().index_of(k);
            assert(self.key_seq()[j] == k);
            assert(j == i);
        }
    }

    /// An empty map.
    pub fn new() -> (r: Self)
        ensures
            r@ == Map::<Seq<char>, V::V>::empty(),
            r.consistent(),
    {
        let r = StrMap { entries: Vec::new() };
        assert(r@ =~= Map::<Seq<char>, V::V>::empty());
        proof {
            r.lemma_consistent();
        }
        r
    }

    /// Number of entries.
    pub fn len(&self) -> (r: usize)
        ensures
            r == self.key_seq().len(),
            r == self@.len(),
            self.consistent(),
    {
        proof {
            use_type_invariant(self);
            self.lemma_consistent();
            self.key_seq().unique_seq_to_set();
            assert(self@.dom() =~= self.key_seq().to_set());
        }
        self.entries.len()
    }

    /// Whether there are no entries.
    pub fn is_empty(&self) -> (r: bool)
        ensures
            r == (self@ == Map::<Seq<char>, V::V>::empty()),
            self.consistent(),
    {
        proof {
            use_type_invariant(self);
            self.lemma_consistent();
        }
        if self.entries.len() == 0 {
            assert(self@ =~= Map::<Seq<char>, V::V>::empty());
            true
        } else {
            assert(self@.contains_key(self.key_seq()[0]));
            false
        }
    }

    /// The entry at position `i`.
    pub fn entry(&self, i: usize) -> (r: (&String, &V))
        requires
            i < self.key_seq().len(),
        ensures
            r.0@ == self.key_seq()[i as int],
            r.1@ == self.value_seq()[i as int],
            self.consistent(),
    {
        proof {
            use_type_invariant(self);
            self.lemma_consistent();
        }
        let e = &self.entries[i];
        (&e.0, &e.1)
    }

    fn find(&self, k: &str) -> (r: Option<usize>)
        ensures
            match r {
                Some(i) => i < self.key_seq().len() && self.key_seq()[i as int] == k@,
                None => !self.key_seq().contains(k@),
            },
    {
        let key = String::from_str(k);
        let mut i: usize = 0;
        while i < self.entries.len()
            invariant
                i <= self.entries.len(),
                key@ == k@,
                forall|j: int| 0 <= j < i ==> self.key_seq()[j] != k@,
            decreases self.entries.len() - i,
        {
            if self.entries[i].0 == key {
                return Some(i);
            }
            i = i + 1;
        }
        None
    }

    /// Whether `k` has an entry.
    pub fn contains_key(&self, k: &str) -> (r: bool)
        ensures
            r == self@.contains_key(k@),
    {
        self.find(k).is_some()
    }

    /// The value under `k`, if any.
    pub fn get(&self, k: &str) -> (r: Option<&V>)
        ensures
            match r {
                Some(v) => self@.contains_key(k@) && v@ == self@[k@],
                None => !self@.contains_key(k@),
            },
    {
        proof {
            use_type_invariant(self);
            self.lemma_consistent();
        }
        match self.find(k) {
            Some(i) => Some(&self.entries[i].1),
            None => None,
        }
    }

    /// Sets the value under `k`, replacing one that was there.
    pub fn insert(&mut self, k: String, v: V)
        ensures
            final(self)@ == old(self)@.insert(k@, v@),
    {
        proof {
            use_type_invariant(&*self);
            self.lemma_consistent();
        }
        let ghost old_keys = self.key_seq();
        let ghost old_map = self@;
        match self.find(k.as_str()) {
            Some(i) => {
                let mut entries: Vec<(String, V)> = Vec::new();
                std::mem::swap(&mut entries, &mut self.entries);
                entries.set(i, (k, v));
                let ghost new_keys = entries@.map_values(|e: (String, V)| e.0@);
                assert(new_keys =~= old_keys);
                self.entries = entries;
                proof {
                    self.lemma_consistent();
                    assert(self@ =~= old_map.insert(k@, v@));
                }
            },
            None => {
                let mut entries: Vec<(String, V)> = Vec::new();
                std::mem::swap(&mut entries, &mut self.entries);
                entries.push((k, v));
                let ghost new_keys = entries@.map_values(|e: (String, V)| e.0@);
                assert(new_keys =~= old_keys.push(k@));
                self.entries = entries;
                proof {
                    self.lemma_consistent();
                    assert forall|x: Seq<char>| #[trigger] self@.contains_key(x) implies old_map.insert(k@, v@).contains_key(x) by {
                        let j = self.key_seq().index_of(x);
                        if j < old_keys.len() {
                            assert(old_keys[j] == x);
                        }
                    }
                    assert forall|x: Seq<char>| old_map.insert(k@, v@).contains_key(x) implies #[trigger] self@.contains_key(x) by {
                        if x != k@ {
                            let j = old_keys.index_of(x);
                            assert(self.key_seq()[j] == x);
                        } else {
                            assert(self.key_seq()[old_keys.len() as int] == x);
                        }
                    }
                    assert forall|x: Seq<char>| #[trigger] self@.contains_key(x) implies self@[x] == old_map.insert(k@, v@)[x] by {
                        let j = self.key_seq().index_of(x);
                        assert(self@[self.key_seq()[j]] == self.value_seq()[j]);
                        if j < old_keys.len() {
                            assert(old_keys[j] == x);
                            assert(old_map[old_keys[j]] == self.value_seq()[j]);
                        }
                    }
                    assert(self@ =~= old_map.insert(k@, v@));
                }
            },
        }
    }

    /// Removes the entry of `k` and returns its value, if there was one.
    pub fn remove(&mut self, k: &str) -> (r: Option<V>)
        ensures
            final(self)@ == old(self)@.remove(k@),
            match r {
                Some(v) => old(self)@.contains_key(k@) && v@ == old(self)@[k@],
                None => !old(self)@.contains_key(k@),
            },
    {
        proof {
            use_type_invariant(&*self);
            self.lemma_consistent();
        }
        let ghost old_keys = self.key_seq();
        let ghost old_vals = self.value_seq();
        let ghost old_map = self@;
        match self.find(k) {
            Some(i) => {
                let mut entries: Vec<(String, V)> = Vec::new();
                std::mem::swap(&mut entries, &mut self.entries);
                let e = entries.remove(i);
                let ghost new_keys = entries@.map_values(|e: (String, V)| e.0@);
                assert(new_keys =~= old_keys.remove(i as int));
                let ghost new_vals = entries@.map_values(|e: (String, V)| e.1@);
                assert(new_vals =~= old_vals.remove(i as int));
                self.entries = entries;
                proof {
                    assert(old_keys[i as int] == k@);
                    assert forall|a: int, b: int|
                        0 <= a < new_keys.len() && 0 <= b < new_keys.len() && a != b implies new_keys[a] != new_keys[b] by {
                        let a2 = if a < i { a } else { a + 1 };
                        let b2 = if b < i { b } else { b + 1 };
                        assert(new_keys[a] == old_keys[a2]);
                        assert(new_keys[b] == old_keys[b2]);
                    }
                    self.lemma_consistent();
                    assert forall|x: Seq<char>| #[trigger] self@.contains_key(x) <==> old_map.remove(k@).contains_key(x) by {
                        if self@.contains_key(x) {
                            let j = new_keys.index_of(x);
                            let j2 = if j < i { j } else { j + 1 };
                            assert(old_keys[j2] == x);
                            assert(j2 != i);
                        }
                        if old_map.remove(k@).contains_key(x) {
                            let j = old_keys.index_of(x);
                            assert(j != i);
                            let j1 = if j < i { j } else { j - 1 };
                            assert(new_keys[j1] == x);
                        }
                    }
                    assert forall|x: Seq<char>| #[trigger] self@.contains_key(x) implies self@[x] == old_map.remove(k@)[x] by {
                        let j = new_keys.index_of(x);
                        let j2 = if j < i { j } else { j + 1 };
                        assert(old_keys[j2] == x);
                        assert(self@[new_keys[j]] == new_vals[j]);
                        assert(old_map[old_keys[j2]] == old_vals[j2]);
                    }
                    assert(self@ =~= old_map.remove(k@));
                }
                Some(e.1)
            },
            None => {
                assert(old_map.remove(k@) =~= old_map);
                None
            },
        }
    }

    /// Takes the map apart into its entries.
    pub fn into_entries(self) -> (r: Vec<(String, V)>)
        ensures
            r@.map_values(|e: (String, V)| e.0@) == self.key_seq(),
            r@.map_values(|e: (String, V)| e.1@) == self.value_seq(),
            self.consistent(),
    {
        proof {
            use_type_invariant(&self);
            self.lemma_consistent();
        }
        self.entries
    }
}

} // verus!
