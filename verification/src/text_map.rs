//! A map from texts to values that remembers the order in which its keys
//! arrived.

use crate::text::text_eq;
use vstd::prelude::*;

verus! {

/// In a list without repetition each member is found at its own place.
pub proof fn lemma_index_of_unique(keys: Seq<Seq<char>>, i: int)
    requires
        keys.no_duplicates(),
        0 <= i < keys.len(),
    ensures
        keys.contains(keys[i]),
        keys.index_of(keys[i]) == i,
{
    assert(keys.contains(keys[i]));
}

/// What a list of keys and a list of values of the same length map to what.
pub open spec fn pairing<V>(keys: Seq<Seq<char>>, values: Seq<V>) -> Map<Seq<char>, V> {
    Map::new(|k: Seq<char>| keys.contains(k), |k: Seq<char>| values[keys.index_of(k)])
}

/// A map keyed by text. No key occurs twice; keys keep the order of arrival.
pub struct TextMap<V> {
    entries: Vec<(String, V)>,
}

impl<V: View> View for TextMap<V> {
    type V = Map<Seq<char>, V::V>;

    open spec fn view(&self) -> Map<Seq<char>, V::V> {
        self.contents().map_values(|v: V| v@)
    }
}

impl<V> TextMap<V> {
    /// The keys in the order in which they are kept.
    pub closed spec fn keys(&self) -> Seq<Seq<char>> {
        self.entries@.map_values(|e: (String, V)| e.0@)
    }

    /// The values, each at the place of its key.
    pub closed spec fn values(&self) -> Seq<V> {
        self.entries@.map_values(|e: (String, V)| e.1)
    }

    /// Each key with its value.
    pub open spec fn contents(&self) -> Map<Seq<char>, V> {
        pairing(self.keys(), self.values())
    }

    #[verifier::type_invariant]
    spec fn distinct(&self) -> bool {
        self.keys().no_duplicates()
    }

    /// The empty map.
    pub fn new() -> (map: TextMap<V>)
        ensures
            map.keys() == Seq::<Seq<char>>::empty(),
            map.contents() == Map::<Seq<char>, V>::empty(),
    {
        let map = TextMap { entries: Vec::new() };
        assert(map.keys() =~= Seq::<Seq<char>>::empty());
        assert(map.contents() =~= Map::<Seq<char>, V>::empty());
        map
    }

    /// The number of keys.
    pub fn len(&self) -> (n: usize)
        ensures
            n == self.keys().len(),
            n == self.values().len(),
            self.keys().no_duplicates(),
            self.contents().dom() == self.keys().to_set(),
            self.contents().dom().finite(),
            n == self.contents().dom().len(),
    {
        proof {
            use_type_invariant(self);
            self.keys().unique_seq_to_set();
            vstd::seq_lib::seq_to_set_is_finite(self.keys());
            assert(self.contents().dom() =~= self.keys().to_set());
        }
        self.entries.len()
    }

    /// The key at a place in the order.
    pub fn key_at(&self, i: usize) -> (key: &String)
        requires
            i < self.keys().len(),
        ensures
            key@ == self.keys()[i as int],
            self.contents().contains_key(key@),
            self.contents()[key@] == self.values()[i as int],
    {
        proof {
            use_type_invariant(self);
            lemma_index_of_unique(self.keys(), i as int);
        }
        &self.entries[i].0
    }

    /// The value at a place in the order.
    pub fn value_at(&self, i: usize) -> (value: &V)
        requires
            i < self.keys().len(),
        ensures
            *value == self.values()[i as int],
            self.contents().contains_key(self.keys()[i as int]),
            self.contents()[self.keys()[i as int]] == *value,
    {
        proof {
            use_type_invariant(self);
            lemma_index_of_unique(self.keys(), i as int);
        }
        &self.entries[i].1
    }

    /// Where a key stands in the order, if the map has it.
    pub fn position(&self, key: &str) -> (place: Option<usize>)
        ensures
            match place {
                Some(i) => i < self.keys().len() && self.keys()[i as int] == key@
                    && self.contents().contains_key(key@) && self.contents()[key@]
                    == self.values()[i as int],
                None => !self.contents().contains_key(key@),
            },
    {
        let mut i: usize = 0;
        while i < self.entries.len()
            invariant
                i <= self.entries.len(),
                forall|j: int| 0 <= j < i ==> self.keys()[j] != key@,
            decreases self.entries.len() - i,
        {
            if text_eq(self.entries[i].0.as_str(), key) {
                proof {
                    use_type_invariant(self);
                    lemma_index_of_unique(self.keys(), i as int);
                }
                return Some(i);
            }
            i += 1;
        }
        None
    }

    /// Whether the map has a key.
    pub fn contains_key(&self, key: &str) -> (found: bool)
        ensures
            found == self.contents().contains_key(key@),
    {
        self.position(key).is_some()
    }

    /// The value of a key, if the map has it.
    pub fn get(&self, key: &str) -> (value: Option<&V>)
        ensures
            match value {
                Some(v) => self.contents().contains_key(key@) && self.contents()[key@] == *v,
                None => !self.contents().contains_key(key@),
            },
    {
        match self.position(key) {
            Some(i) => Some(&self.entries[i].1),
            None => None,
        }
    }

    /// Gives a key a value. A key that the map has keeps its place; a new one
    /// goes to the end.
    pub fn insert(&mut self, key: String, value: V)
        ensures
            final(self).contents() == old(self).contents().insert(key@, value),
            final(self).keys() == if old(self).contents().contains_key(key@) {
                old(self).keys()
            } else {
                old(self).keys().push(key@)
            },
    {
        proof {
            use_type_invariant(&*self);
        }
        let ghost keys = self.keys();
        let ghost values = self.values();
        let ghost k = key@;
        let place = self.position(key.as_str());
        let mut entries: Vec<(String, V)> = Vec::new();
        core::mem::swap(&mut self.entries, &mut entries);
        match place {
            Some(i) => {
                entries.remove(i);
                entries.insert(i, (key, value));
            },
            None => {
                entries.push((key, value));
            },
        }
        let ghost new_keys = entries@.map_values(|e: (String, V)| e.0@);
        let ghost new_values = entries@.map_values(|e: (String, V)| e.1);
        proof {
            match place {
                Some(i) => {
                    assert(new_keys =~= keys);
                    assert(new_values =~= values.update(i as int, value));
                    lemma_index_of_unique(keys, i as int);
                    assert(pairing(new_keys, new_values) =~= pairing(keys, values).insert(
                        k,
                        value,
                    )) by {
                        assert forall|t: Seq<char>| keys.contains(t) && t != k implies values[keys.index_of(
                            t,
                        )] == new_values[keys.index_of(t)] by {}
                    }
                },
                None => {
                    assert(new_keys =~= keys.push(k));
                    assert(new_values =~= values.push(value));
                    assert(new_keys.no_duplicates());
                    lemma_index_of_unique(new_keys, keys.len() as int);
                    assert(pairing(new_keys, new_values) =~= pairing(keys, values).insert(
                        k,
                        value,
                    )) by {
                        assert forall|t: Seq<char>| keys.contains(t) implies new_keys.contains(t)
                            && new_keys.index_of(t) == keys.index_of(t) by {
                            let j = keys.index_of(t);
                            assert(new_keys[j] == t);
                            lemma_index_of_unique(new_keys, j);
                        }
                        assert forall|t: Seq<char>| new_keys.contains(t) implies keys.contains(t)
                            || t == k by {
                            let j = new_keys.index_of(t);
                            if j < keys.len() {
                                assert(keys[j] == t);
                            }
                        }
                    }
                },
            }
        }
        core::mem::swap(&mut self.entries, &mut entries);
    }

    /// Takes a key out, with its value. The other keys keep their order.
    pub fn remove(&mut self, key: &str) -> (value: Option<V>)
        ensures
            final(self).contents() == old(self).contents().remove(key@),
            value == if old(self).contents().contains_key(key@) {
                Some(old(self).contents()[key@])
            } else {
                None
            },
            final(self).keys() == if old(self).contents().contains_key(key@) {
                old(self).keys().remove(old(self).keys().index_of(key@))
            } else {
                old(self).keys()
            },
    {
        proof {
            use_type_invariant(&*self);
        }
        let ghost keys = self.keys();
        let ghost values = self.values();
        let ghost k = key@;
        match self.position(key) {
            Some(i) => {
                let mut entries: Vec<(String, V)> = Vec::new();
                core::mem::swap(&mut self.entries, &mut entries);
                let entry = entries.remove(i);
                let ghost new_keys = entries@.map_values(|e: (String, V)| e.0@);
                let ghost new_values = entries@.map_values(|e: (String, V)| e.1);
                proof {
                    lemma_index_of_unique(keys, i as int);
                    assert(new_keys =~= keys.remove(i as int));
                    assert(new_values =~= values.remove(i as int));
                    assert(new_keys.no_duplicates());
                    assert(pairing(new_keys, new_values) =~= pairing(keys, values).remove(k)) by {
                        assert forall|t: Seq<char>| keys.contains(t) && t != k implies new_keys.contains(
                            t,
                        ) && new_values[new_keys.index_of(t)] == values[keys.index_of(t)] by {
                            let j = keys.index_of(t);
                            let m = if j < i {
                                j
                            } else {
                                j - 1
                            };
                            assert(new_keys[m] == t);
                            lemma_index_of_unique(new_keys, m);
                        }
                        assert forall|t: Seq<char>| new_keys.contains(t) implies keys.contains(t)
                            && t != k by {
                            let m = new_keys.index_of(t);
                            let j = if m < i {
                                m
                            } else {
                                m + 1
                            };
                            assert(keys[j] == t);
                        }
                    }
                }
                core::mem::swap(&mut self.entries, &mut entries);
                Some(entry.1)
            },
            None => {
                assert(self.contents().remove(k) =~= self.contents());
                None
            },
        }
    }
}

impl TextMap<String> {
    /// A map with the same keys in the same order, each with the same text.
    pub fn copy(&self) -> (map: TextMap<String>)
        ensures
            map.keys() == self.keys(),
            map@ == self@,
    {
        proof {
            use_type_invariant(self);
        }
        let mut entries: Vec<(String, String)> = Vec::new();
        let mut i: usize = 0;
        while i < self.entries.len()
            invariant
                i <= self.entries.len(),
                entries@.len() == i,
                forall|j: int|
                    0 <= j < i ==> (#[trigger] entries@[j]).0@ == self.entries@[j].0@
                        && entries@[j].1@ == self.entries@[j].1@,
            decreases self.entries.len() - i,
        {
            let key = self.entries[i].0.clone();
            let value = self.entries[i].1.clone();
            entries.push((key, value));
            i += 1;
        }
        assert(entries@.map_values(|e: (String, String)| e.0@) =~= self.keys());
        let map = TextMap { entries };
        proof {
            assert(map.keys() =~= self.keys());
            assert(map@ =~= self@) by {
                assert forall|k: Seq<char>| self.keys().contains(k) implies map.values()[map.keys().index_of(
                    k,
                )]@ == self.values()[self.keys().index_of(k)]@ by {
                    let j = self.keys().index_of(k);
                    assert(map.values()[j] == entries@[j].1);
                }
            }
        }
        map
    }
}

} // verus!
