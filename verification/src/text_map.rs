//! Maps from text to text, with their entries in ascending order of the keys.

use vstd::prelude::*;
use crate::sorted::{
    ascending, in_order, lemma_ascending_distinct, lemma_in_order, lemma_insert_ascending, place_of,
};
use crate::text::{text_lt, views};

verus! {

/// A map from text to text.
#[derive(Debug, PartialEq, Eq, Hash, PartialOrd, Ord)]
pub struct TextMap {
    keys: Vec<String>,
    values: Vec<String>,
}

/// The map that takes each key to the value in the same position.
pub open spec fn entries_map(keys: Seq<Seq<char>>, values: Seq<Seq<char>>) -> Map<
    Seq<char>,
    Seq<char>,
> {
    Map::new(|key: Seq<char>| keys.contains(key), |key: Seq<char>| values[keys.index_of(key)])
}

impl View for TextMap {
    type V = Map<Seq<char>, Seq<char>>;

    closed spec fn view(&self) -> Map<Seq<char>, Seq<char>> {
        entries_map(views(self.keys@), views(self.values@))
    }
}

/// Among distinct keys, a key's position is where it stands.
proof fn lemma_entry(keys: Seq<Seq<char>>, values: Seq<Seq<char>>, i: int)
    requires
        keys.no_duplicates(),
        0 <= i < keys.len(),
    ensures
        entries_map(keys, values).contains_key(keys[i]),
        entries_map(keys, values)[keys[i]] == values[i],
{
    assert(keys.contains(keys[i]));
    assert(keys.index_of(keys[i]) == i);
}

impl TextMap {
    /// The keys are in ascending order, and each has a value.
    #[verifier::type_invariant]
    pub closed spec fn wf(&self) -> bool {
        &&& ascending(views(self.keys@))
        &&& self.keys@.len() == self.values@.len()
    }

    /// The keys are those of the map, in order.
    proof fn lemma_keys(&self)
        requires
            self.wf(),
        ensures
            views(self.keys@).no_duplicates(),
            views(self.keys@) == in_order(self@.dom()),
            views(self.keys@).to_set() == self@.dom(),
            self@.dom().finite(),
    {
        let keys = views(self.keys@);
        lemma_ascending_distinct(keys);
        assert(keys.to_set() =~= self@.dom());
        lemma_in_order(keys);
    }

    /// The map without entries.
    pub fn new() -> (map: Self)
        ensures
            map@ == Map::<Seq<char>, Seq<char>>::empty(),
            map.wf(),
    {
        let map = TextMap { keys: Vec::new(), values: Vec::new() };
        assert(map@ =~= Map::<Seq<char>, Seq<char>>::empty());
        map
    }

    /// The number of entries.
    pub fn len(&self) -> (n: usize)
        ensures
            n == self@.dom().len(),
            self@.dom().finite(),
            n == in_order(self@.dom()).len(),
    {
        proof {
            use_type_invariant(self);
            self.lemma_keys();
            views(self.keys@).unique_seq_to_set();
        }
        self.keys.len()
    }

    /// The entry in position `i`, in ascending order of the keys.
    pub fn entry(&self, i: usize) -> (entry: (&str, &str))
        requires
            i < self@.dom().len(),
        ensures
            entry.0@ == in_order(self@.dom())[i as int],
            self@.contains_key(entry.0@),
            entry.1@ == self@[entry.0@],
    {
        proof {
            use_type_invariant(self);
            self.lemma_keys();
            views(self.keys@).unique_seq_to_set();
            lemma_entry(views(self.keys@), views(self.values@), i as int);
        }
        (self.keys[i].as_str(), self.values[i].as_str())
    }

    /// The value of `key`.
    pub fn get(&self, key: &str) -> (value: Option<&str>)
        ensures
            match value {
                Some(value) => self@.contains_key(key@) && value@ == self@[key@],
                None => !self@.contains_key(key@),
            },
    {
        proof {
            use_type_invariant(self);
            lemma_ascending_distinct(views(self.keys@));
        }
        let place = place_of(&self.keys, key);
        if place.found {
            proof {
                lemma_entry(views(self.keys@), views(self.values@), place.index as int);
            }
            Some(self.values[place.index].as_str())
        } else {
            None
        }
    }

    /// Gives `key` the value `value`, in place of the one it may have had.
    pub fn insert(&mut self, key: String, value: String)
        ensures
            final(self)@ == old(self)@.insert(key@, value@),
            final(self).wf(),
    {
        let mut map = TextMap::new();
        std::mem::swap(self, &mut map);
        *self = map.with_entry(key, value);
    }

    /// The map with one more entry, or with another value for a key it has.
    fn with_entry(self, key: String, value: String) -> (map: Self)
        ensures
            map@ == self@.insert(key@, value@),
            map.wf(),
    {
        proof {
            use_type_invariant(&self);
        }
        let ghost before = self@;
        let ghost old_keys = views(self.keys@);
        let ghost old_values = views(self.values@);
        let TextMap { mut keys, mut values } = self;
        let place = place_of(&keys, key.as_str());
        let ghost at = place.index as int;
        if place.found {
            values.set(place.index, value);
            proof {
                lemma_ascending_distinct(old_keys);
                lemma_entry(old_keys, old_values, at);
                assert(views(values@) =~= old_values.update(at, value@));
                assert forall|k: Seq<char>| old_keys.contains(k) implies entries_map(
                    old_keys,
                    views(values@),
                )[k] == before.insert(key@, value@)[k] by {
                    let i = old_keys.index_of(k);
                    assert(old_keys[i] == k);
                }
                assert(entries_map(old_keys, views(values@)) =~= before.insert(key@, value@));
            }
        } else {
            let ghost k = key@;
            let ghost v = value@;
            keys.insert(place.index, key);
            values.insert(place.index, value);
            proof {
                let new_keys = views(keys@);
                let new_values = views(values@);
                assert(new_keys =~= old_keys.insert(at, k));
                assert(new_values =~= old_values.insert(at, v));
                assert forall|j: int| 0 <= j < at implies text_lt(#[trigger] old_keys[j], k) by {
                    assert(old_keys[j] == self.keys@[j]@);
                }
                assert forall|j: int| at <= j < old_keys.len() implies text_lt(
                    k,
                    #[trigger] old_keys[j],
                ) by {
                    assert(old_keys[j] == self.keys@[j]@);
                }
                lemma_insert_ascending(old_keys, at, k);
                lemma_ascending_distinct(new_keys);
                lemma_ascending_distinct(old_keys);
                assert(new_keys.to_set() == old_keys.to_set().insert(k));
                let after = entries_map(new_keys, new_values);
                assert forall|t: Seq<char>| after.contains_key(t) <==> before.insert(
                    k,
                    v,
                ).contains_key(t) by {
                    assert(new_keys.to_set().contains(t) <==> old_keys.to_set().insert(k).contains(
                        t,
                    ));
                }
                assert forall|t: Seq<char>| after.contains_key(t) implies after[t]
                    == before.insert(k, v)[t] by {
                    let i = choose|i: int| 0 <= i < new_keys.len() && new_keys[i] == t;
                    lemma_entry(new_keys, new_values, i);
                    if i < at {
                        assert(old_keys[i] == t);
                        lemma_entry(old_keys, old_values, i);
                        assert(text_lt(new_keys[i], new_keys[at]));
                        assert(new_keys[i] != new_keys[at]);
                    } else if i > at {
                        assert(old_keys[i - 1] == t);
                        lemma_entry(old_keys, old_values, i - 1);
                        assert(new_keys[i] != new_keys[at]);
                    }
                }
                assert(after =~= before.insert(k, v));
            }
        }
        TextMap { keys, values }
    }
}

impl Default for TextMap {
    fn default() -> (map: Self)
        ensures
            map@ == Map::<Seq<char>, Seq<char>>::empty(),
            map.wf(),
    {
        TextMap::new()
    }
}

impl Clone for TextMap {
    fn clone(&self) -> (map: Self)
        ensures
            map@ == self@,
            map.wf(),
    {
        proof {
            use_type_invariant(self);
        }
        let keys = self.keys.clone();
        let values = self.values.clone();
        assert(keys@ =~= self.keys@);
        assert(values@ =~= self.values@);
        TextMap { keys, values }
    }
}

} // verus!
