//! A map from string keys to values, kept as a list of entries in which no key
//! occurs twice. It stands where the persisted state uses a string-keyed hash map.
use vstd::prelude::*;
use crate::strings::str_eq;

verus! {

/// A string-keyed map; no key occurs in two entries.
pub struct StrMap<V: View> {
    entries: Vec<(String, V)>,
}

impl<V: View> StrMap<V> {
    /// The entries, in storage order, with keys and values taken by their views.
    pub closed spec fn entries_view(&self) -> Seq<(Seq<char>, V::V)> {
        self.entries@.map_values(|e: (String, V)| (e.0@, e.1@))
    }

    closed spec fn keys_distinct(&self) -> bool {
        forall|i: int, j: int|
            0 <= i < j < self.entries@.len() ==> #[trigger] self.entries@[i].0@
                != #[trigger] self.entries@[j].0@
    }

    /// No key occurs in two entries.
    #[verifier::type_invariant]
    pub closed spec fn inv(&self) -> bool {
        self.keys_distinct()
    }

    closed spec fn has_key(&self, k: Seq<char>) -> bool {
        exists|i: int| 0 <= i < self.entries@.len() && #[trigger] self.entries@[i].0@ == k
    }

    closed spec fn find(&self, k: Seq<char>) -> int {
        choose|i: int| 0 <= i < self.entries@.len() && #[trigger] self.entries@[i].0@ == k
    }

    /// The map that the entries stand for.
    pub closed spec fn map_view(&self) -> Map<Seq<char>, V::V> {
        Map::new(|k: Seq<char>| self.has_key(k), |k: Seq<char>| self.entries@[self.find(k)].1@)
    }

    proof fn lemma_entry(&self, i: int)
        requires
            self.keys_distinct(),
            0 <= i < self.entries@.len(),
        ensures
            self.map_view().contains_key(self.entries@[i].0@),
            self.map_view()[self.entries@[i].0@] == self.entries@[i].1@,
    {
        let k = self.entries@[i].0@;
        assert(self.has_key(k));
        let j = self.find(k);
        if j != i {
            if j < i {
                assert(self.entries@[j].0@ != self.entries@[i].0@);
            } else {
                assert(self.entries@[i].0@ != self.entries@[j].0@);
            }
        }
    }

    proof fn lemma_all_entries(&self)
        requires
            self.keys_distinct(),
        ensures
            forall|i: int|
                0 <= i < self.entries@.len() ==> self.map_view().contains_key(
                    #[trigger] self.entries@[i].0@,
                ) && self.map_view()[self.entries@[i].0@] == self.entries@[i].1@,
            forall|k: Seq<char>|
                #[trigger] self.map_view().contains_key(k) ==> exists|i: int|
                    0 <= i < self.entries@.len() && #[trigger] self.entries@[i].0@ == k,
    {
        assert forall|i: int| 0 <= i < self.entries@.len() implies self.map_view().contains_key(
            #[trigger] self.entries@[i].0@,
        ) && self.map_view()[self.entries@[i].0@] == self.entries@[i].1@ by {
            self.lemma_entry(i);
        }
    }

    /// The map's entries in storage order: the i-th key and value of `entries_view`
    /// are in the map, and every key of the map is some entry's key.
    pub proof fn lemma_entries_view(&self)
        requires
            self.inv(),
        ensures
            forall|i: int|
                0 <= i < self.entries_view().len() ==> self.map_view().contains_key(
                    (#[trigger] self.entries_view()[i]).0,
                ) && self.map_view()[self.entries_view()[i].0] == self.entries_view()[i].1,
            forall|k: Seq<char>|
                #[trigger] self.map_view().contains_key(k) ==> exists|i: int|
                    0 <= i < self.entries_view().len() && #[trigger] self.entries_view()[i].0 == k,
            forall|i: int, j: int|
                0 <= i < j < self.entries_view().len() ==> (#[trigger] self.entries_view()[i]).0
                    != (#[trigger] self.entries_view()[j]).0,
    {
        self.lemma_all_entries();
        assert forall|k: Seq<char>| #[trigger] self.map_view().contains_key(k) implies exists|i: int|
            0 <= i < self.entries_view().len() && #[trigger] self.entries_view()[i].0 == k by {
            let i = choose|i: int| 0 <= i < self.entries@.len() && #[trigger] self.entries@[i].0@ == k;
            assert(self.entries_view()[i].0 == k);
        }
        assert forall|i: int, j: int|
            0 <= i < j < self.entries_view().len() implies (#[trigger] self.entries_view()[i]).0
            != (#[trigger] self.entries_view()[j]).0 by {
            assert(self.entries@[i].0@ != self.entries@[j].0@);
        }
    }

    /// An empty map.
    pub fn new() -> (m: Self)
        ensures
            m.map_view() == Map::<Seq<char>, V::V>::empty(),
            m.entries_view() == Seq::<(Seq<char>, V::V)>::empty(),
    {
        let m = StrMap { entries: Vec::new() };
        assert(m.map_view() =~= Map::<Seq<char>, V::V>::empty());
        assert(m.entries_view() =~= Seq::<(Seq<char>, V::V)>::empty());
        m
    }

    /// The number of entries.
    pub fn len(&self) -> (n: usize)
        ensures
            n == self.entries_view().len(),
    {
        self.entries.len()
    }

    /// The key and value of entry `i`.
    pub fn entry(&self, i: usize) -> (e: (&String, &V))
        requires
            i < self.entries_view().len(),
        ensures
            e.0@ == self.entries_view()[i as int].0,
            e.1@ == self.entries_view()[i as int].1,
    {
        let e = &self.entries[i];
        (&e.0, &e.1)
    }

    fn find_index(&self, k: &str) -> (r: Option<usize>)
        ensures
            match r {
                Some(i) => i < self.entries@.len() && self.entries@[i as int].0@ == k@,
                None => forall|i: int|
                    0 <= i < self.entries@.len() ==> #[trigger] self.entries@[i].0@ != k@,
            },
    {
        let n = self.entries.len();
        let mut i: usize = 0;
        while i < n
            invariant
                i <= n,
                n == self.entries@.len(),
                forall|j: int| 0 <= j < i ==> #[trigger] self.entries@[j].0@ != k@,
            decreases n - i,
        {
            if str_eq(self.entries[i].0.as_str(), k) {
                return Some(i);
            }
            i = i + 1;
        }
        None
    }

    /// The value stored under `k`, if any.
    pub fn get(&self, k: &str) -> (r: Option<&V>)
        ensures
            match r {
                Some(v) => self.map_view().contains_key(k@) && self.map_view()[k@] == v@,
                None => !self.map_view().contains_key(k@),
            },
    {
        proof {
            use_type_invariant(self);
            self.lemma_all_entries();
        }
        match self.find_index(k) {
            Some(i) => Some(&self.entries[i].1),
            None => None,
        }
    }

    /// Stores `v` under `k`, replacing the value stored there before.
    pub fn insert(&mut self, k: String, v: V)
        ensures
            final(self).map_view() == old(self).map_view().insert(k@, v@),
    {
        proof {
            use_type_invariant(&*self);
            self.lemma_all_entries();
        }
        let ghost old_map = self.map_view();
        let ghost kv = k@;
        let ghost vv = v@;
        match self.find_index(k.as_str()) {
            Some(i) => {
                let mut entries: Vec<(String, V)> = Vec::new();
                std::mem::swap(&mut entries, &mut self.entries);
                entries.set(i, (k, v));
                proof {
                    assert forall|a: int, b: int|
                        0 <= a < b < entries@.len() implies #[trigger] entries@[a].0@
                        != #[trigger] entries@[b].0@ by {
                        assert(old(self).entries@[a].0@ != old(self).entries@[b].0@);
                    }
                }
                self.entries = entries;
                proof {
                    self.lemma_all_entries();
                    assert(self.map_view() =~= old_map.insert(kv, vv)) by {
                        assert forall|key: Seq<char>| #[trigger]
                            self.map_view().contains_key(key) implies old_map.insert(
                            kv,
                            vv,
                        ).contains_key(key) by {
                            let j = choose|j: int|
                                0 <= j < self.entries@.len() && #[trigger] self.entries@[j].0@
                                    == key;
                            if j != i {
                                assert(old(self).entries@[j] == self.entries@[j]);
                            }
                        }
                        assert forall|key: Seq<char>| #[trigger]
                            old_map.insert(kv, vv).contains_key(key) implies self.map_view().contains_key(
                            key,
                        ) && self.map_view()[key] == old_map.insert(kv, vv)[key] by {
                            if key == kv {
                                assert(self.entries@[i as int].0@ == kv);
                            } else {
                                let j = choose|j: int|
                                    0 <= j < old(self).entries@.len()
                                        && #[trigger] old(self).entries@[j].0@ == key;
                                assert(j != i);
                                assert(self.entries@[j] == old(self).entries@[j]);
                            }
                        }
                    }
                }
            },
            None => {
                let mut entries: Vec<(String, V)> = Vec::new();
                std::mem::swap(&mut entries, &mut self.entries);
                entries.push((k, v));
                proof {
                    let n = old(self).entries@.len();
                    assert forall|a: int, b: int|
                        0 <= a < b < entries@.len() implies #[trigger] entries@[a].0@
                        != #[trigger] entries@[b].0@ by {
                        if b < n {
                            assert(old(self).entries@[a].0@ != old(self).entries@[b].0@);
                        } else {
                            assert(old(self).entries@[a].0@ != kv);
                        }
                    }
                }
                self.entries = entries;
                proof {
                    let n = old(self).entries@.len();
                    self.lemma_all_entries();
                    assert(self.map_view() =~= old_map.insert(kv, vv)) by {
                        assert forall|key: Seq<char>| #[trigger]
                            self.map_view().contains_key(key) implies old_map.insert(
                            kv,
                            vv,
                        ).contains_key(key) by {
                            let j = choose|j: int|
                                0 <= j < self.entries@.len() && #[trigger] self.entries@[j].0@
                                    == key;
                            if j < n {
                                assert(old(self).entries@[j] == self.entries@[j]);
                            }
                        }
                        assert forall|key: Seq<char>| #[trigger]
                            old_map.insert(kv, vv).contains_key(key) implies self.map_view().contains_key(
                            key,
                        ) && self.map_view()[key] == old_map.insert(kv, vv)[key] by {
                            if key == kv {
                                assert(self.entries@[n as int].0@ == kv);
                            } else {
                                let j = choose|j: int|
                                    0 <= j < old(self).entries@.len()
                                        && #[trigger] old(self).entries@[j].0@ == key;
                                assert(self.entries@[j] == old(self).entries@[j]);
                            }
                        }
                    }
                }
            },
        }
    }

    /// Removes the entry stored under `k`, if there is one.
    pub fn remove(&mut self, k: &str)
        ensures
            final(self).map_view() == old(self).map_view().remove(k@),
    {
        proof {
            use_type_invariant(&*self);
            self.lemma_all_entries();
        }
        let ghost old_map = self.map_view();
        match self.find_index(k) {
            Some(i) => {
                let mut entries: Vec<(String, V)> = Vec::new();
                std::mem::swap(&mut entries, &mut self.entries);
                let _ = entries.remove(i);
                proof {
                    assert forall|a: int, b: int|
                        0 <= a < b < entries@.len() implies #[trigger] entries@[a].0@
                        != #[trigger] entries@[b].0@ by {
                        let oa = if a < i { a } else { a + 1 };
                        let ob = if b < i { b } else { b + 1 };
                        assert(entries@[a] == old(self).entries@[oa]);
                        assert(entries@[b] == old(self).entries@[ob]);
                        assert(old(self).entries@[oa].0@ != old(self).entries@[ob].0@);
                    }
                }
                self.entries = entries;
                proof {
                    self.lemma_all_entries();
                    assert(self.map_view() =~= old_map.remove(k@)) by {
                        assert forall|key: Seq<char>| #[trigger]
                            self.map_view().contains_key(key) implies old_map.remove(
                            k@,
                        ).contains_key(key) && self.map_view()[key] == old_map.remove(k@)[key] by {
                            let j = choose|j: int|
                                0 <= j < self.entries@.len() && #[trigger] self.entries@[j].0@
                                    == key;
                            let oj = if j < i { j } else { j + 1 };
                            assert(self.entries@[j] == old(self).entries@[oj]);
                            if oj < i {
                                assert(old(self).entries@[oj].0@ != old(self).entries@[i as int].0@);
                            } else {
                                assert(old(self).entries@[i as int].0@ != old(self).entries@[oj].0@);
                            }
                        }
                        assert forall|key: Seq<char>| #[trigger]
                            old_map.remove(k@).contains_key(key) implies self.map_view().contains_key(
                            key,
                        ) by {
                            let j = choose|j: int|
                                0 <= j < old(self).entries@.len()
                                    && #[trigger] old(self).entries@[j].0@ == key;
                            assert(j != i);
                            let nj = if j < i { j } else { j - 1 };
                            assert(self.entries@[nj] == old(self).entries@[j]);
                        }
                    }
                }
            },
            None => {
                assert(self.map_view() =~= old_map.remove(k@));
            },
        }
    }
}

impl<V: View> View for StrMap<V> {
    type V = Map<Seq<char>, V::V>;

    open spec fn view(&self) -> Map<Seq<char>, V::V> {
        self.map_view()
    }
}

} // verus!
