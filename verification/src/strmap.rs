//! A map keyed by strings, held as a list of entries whose keys are
//! pairwise distinct.

use vstd::prelude::*;

verus! {

/// A map from strings to values; a key occurs at most once.
pub struct StrMap<V> {
    entries: Vec<(String, V)>,
}

impl<V> StrMap<V> {
    /// The key of the `i`-th entry.
    pub closed spec fn key_at(self, i: int) -> Seq<char> {
        self.entries@[i].0@
    }

    /// The number of entries.
    pub closed spec fn entry_count(self) -> nat {
        self.entries@.len()
    }

    /// The index of the entry with key `k`, if there is one.
    pub closed spec fn index_of(self, k: Seq<char>) -> int {
        choose|i: int| 0 <= i < self.entries@.len() && self.key_at(i) == k
    }

    #[verifier::type_invariant]
    closed spec fn keys_distinct(self) -> bool {
        forall|i: int, j: int|
            0 <= i < self.entries@.len() && 0 <= j < self.entries@.len() && i != j
                ==> self.key_at(i) != self.key_at(j)
    }

    /// The map as a mathematical map.
    pub closed spec fn as_map(self) -> Map<Seq<char>, V> {
        Map::new(
            |k: Seq<char>| exists|i: int| 0 <= i < self.entries@.len() && self.key_at(i) == k,
            |k: Seq<char>| self.entries@[self.index_of(k)].1,
        )
    }

    /// An empty map.
    pub fn new() -> (m: StrMap<V>)
        ensures
            m.as_map() == Map::<Seq<char>, V>::empty(),
    {
        let m = StrMap { entries: Vec::new() };
        assert(m.as_map() =~= Map::<Seq<char>, V>::empty());
        m
    }

    /// The index of the entry whose key is the given string.
    fn find(&self, key: &str) -> (r: Option<usize>)
        ensures
            r matches Some(i) ==> i < self.entries@.len() && self.key_at(i as int) == key@,
            r is None ==> !self.as_map().dom().contains(key@),
    {
        let k = key.to_owned();
        let mut i: usize = 0;
        while i < self.entries.len()
            invariant
                i <= self.entries@.len(),
                k@ == key@,
                forall|t: int| 0 <= t < i ==> self.key_at(t) != key@,
            decreases self.entries@.len() - i,
        {
            if self.entries[i].0 == k {
                return Some(i);
            }
            i = i + 1;
        }
        None
    }

    /// The value under the given key.
    pub fn get(&self, key: &str) -> (r: Option<&V>)
        ensures
            r == (if self.as_map().dom().contains(key@) { Some(&self.as_map()[key@]) } else { None }),
    {
        proof { use_type_invariant(self); }
        match self.find(key) {
            Some(i) => {
                proof {
                    assert(self.as_map().dom().contains(key@));
                    let c = self.index_of(key@);
                    assert(c == i);
                }
                Some(&self.entries[i].1)
            },
            None => None,
        }
    }

    /// Whether a key is present.
    pub fn contains_key(&self, key: &str) -> (b: bool)
        ensures
            b == self.as_map().dom().contains(key@),
    {
        self.find(key).is_some()
    }

    /// Sets the value under `key`, replacing any value that was there.
    pub fn insert(&mut self, key: String, value: V)
        ensures
            final(self).as_map() == old(self).as_map().insert(key@, value),
    {
        proof { use_type_invariant(&*self); }
        let ghost k = key@;
        let ghost old_map = self.as_map();
        match self.find(key.as_str()) {
            Some(i) => {
                let mut entries: Vec<(String, V)> = Vec::new();
                std::mem::swap(&mut entries, &mut self.entries);
                entries.set(i, (key, value));
                proof {
                    assert forall|a: int, b: int|
                        0 <= a < entries@.len() && 0 <= b < entries@.len() && a != b
                        implies entries@[a].0@ != entries@[b].0@ by {
                        assert(old(self).key_at(a) != old(self).key_at(b));
                    }
                }
                self.entries = entries;
                proof {
                    assert forall|t: int| 0 <= t < self.entries@.len() implies self.key_at(t) == old(self).key_at(t) by {}
                    assert(self.as_map() =~= old_map.insert(k, value)) by {
                        assert forall|q: Seq<char>| #![auto] self.as_map().dom().contains(q) implies
                            self.as_map()[q] == old_map.insert(k, value)[q] by {
                            let c = self.index_of(q);
                            if q == k {
                                assert(c == i);
                            } else {
                                let c0 = old(self).index_of(q);
                                assert(old(self).key_at(c0) == q);
                                assert(c == c0);
                            }
                        }
                        assert forall|q: Seq<char>| #![auto] old_map.insert(k, value).dom().contains(q) implies
                            self.as_map().dom().contains(q) by {
                            if q != k {
                                let c0 = old(self).index_of(q);
                                assert(self.key_at(c0) == q);
                            } else {
                                assert(self.key_at(i as int) == q);
                            }
                        }
                    }
                }
            },
            None => {
                let mut entries: Vec<(String, V)> = Vec::new();
                std::mem::swap(&mut entries, &mut self.entries);
                entries.push((key, value));
                proof {
                    let n = old(self).entries@.len() as int;
                    assert forall|a: int, b: int|
                        0 <= a < entries@.len() && 0 <= b < entries@.len() && a != b
                        implies entries@[a].0@ != entries@[b].0@ by {
                        if a < n && b < n {
                            assert(old(self).key_at(a) != old(self).key_at(b));
                        } else if a == n {
                            assert(old(self).key_at(b) != k);
                        } else {
                            assert(old(self).key_at(a) != k);
                        }
                    }
                }
                self.entries = entries;
                proof {
                    let n = old(self).entries@.len() as int;
                    assert forall|t: int| 0 <= t < n implies self.key_at(t) == old(self).key_at(t) by {}
                    assert(self.key_at(n) == k);
                    assert(self.as_map() =~= old_map.insert(k, value)) by {
                        assert forall|q: Seq<char>| #![auto] self.as_map().dom().contains(q) implies
                            self.as_map()[q] == old_map.insert(k, value)[q] by {
                            let c = self.index_of(q);
                            if q == k {
                                assert(c == n);
                            } else {
                                let c0 = old(self).index_of(q);
                                assert(c < n);
                                assert(old(self).key_at(c) == q);
                                assert(old(self).key_at(c0) == q);
                                assert(c == c0);
                            }
                        }
                        assert forall|q: Seq<char>| #![auto] old_map.insert(k, value).dom().contains(q) implies
                            self.as_map().dom().contains(q) by {
                            if q != k {
                                let c0 = old(self).index_of(q);
                                assert(self.key_at(c0) == q);
                            } else {
                                assert(self.key_at(n) == q);
                            }
                        }
                    }
                }
            },
        }
    }

    /// Removes the entry under `key`, giving back its value.
    pub fn remove(&mut self, key: &str) -> (r: Option<V>)
        ensures
            r == (if old(self).as_map().dom().contains(key@) { Some(old(self).as_map()[key@]) } else { None }),
            final(self).as_map() == old(self).as_map().remove(key@),
    {
        proof { use_type_invariant(&*self); }
        let ghost old_map = self.as_map();
        match self.find(key) {
            None => {
                assert(old_map.remove(key@) =~= old_map);
                None
            },
            Some(i) => {
                proof {
                    let c = self.index_of(key@);
                    assert(c == i);
                }
                let mut entries: Vec<(String, V)> = Vec::new();
                std::mem::swap(&mut entries, &mut self.entries);
                let (_k, v) = entries.remove(i);
                proof {
                    let n = old(self).entries@.len() as int;
                    assert forall|t: int| 0 <= t < entries@.len() implies
                        #[trigger] entries@[t].0@ == old(self).key_at(if t < i { t } else { t + 1 }) by {}
                    assert forall|a: int, b: int|
                        0 <= a < entries@.len() && 0 <= b < entries@.len() && a != b
                        implies entries@[a].0@ != entries@[b].0@ by {
                        let a0 = if a < i { a } else { a + 1 };
                        let b0 = if b < i { b } else { b + 1 };
                        assert(old(self).key_at(a0) != old(self).key_at(b0));
                    }
                }
                self.entries = entries;
                proof {
                    assert(self.as_map() =~= old_map.remove(key@)) by {
                        assert forall|q: Seq<char>| #![auto] self.as_map().dom().contains(q) implies
                            old_map.remove(key@).dom().contains(q) && self.as_map()[q] == old_map[q] by {
                            let c = self.index_of(q);
                            let c0 = if c < i { c } else { c + 1 };
                            assert(old(self).key_at(c0) == q);
                            assert(q != key@);
                            assert(old(self).index_of(q) == c0);
                        }
                        assert forall|q: Seq<char>| #![auto] old_map.remove(key@).dom().contains(q) implies
                            self.as_map().dom().contains(q) by {
                            let c0 = old(self).index_of(q);
                            assert(c0 != i);
                            let c = if c0 < i { c0 } else { c0 - 1 };
                            assert(self.key_at(c) == q);
                        }
                    }
                }
                Some(v)
            },
        }
    }
}

} // verus!
