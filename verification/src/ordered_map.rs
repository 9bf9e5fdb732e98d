//! [`OrderedMap`] is the heap representation of a small map: a vector of entries, in
//! insertion order, beside a hashed index that finds the place of a key.
use indexmap::IndexMap;
use std::collections::hash_map::RandomState;
use vstd::prelude::*;

use crate::entries::distinct_keys;
use crate::entries::entries_cloned;
use crate::entries::inserted;
use crate::entries::inserted_all;
use crate::entries::keys;
use crate::entries::lemma_entries_cloned_keys;
use crate::entries::lemma_inserted;
use crate::entries::lemma_position;
use crate::entries::lemma_position_distinct;
use crate::entries::lemma_position_none;
use crate::entries::lemma_same_keys_updated;
use crate::entries::lemma_swap_removed;
use crate::entries::position;
use crate::entries::swap_removed;
use crate::key_index::index_clone;
use crate::key_index::index_insert;
use crate::key_index::index_new;
use crate::key_index::index_position;
use crate::key_index::index_swap_remove;
use crate::key_index::key_order;

verus! {

/// A map from `usize` keys to values that keeps its entries in insertion order, looks a key
/// up in constant time on average, and reaches an entry by its place in the order.
///
/// Only removal changes the order: it moves the last entry into the place of the removed
/// one.
///
/// The map is viewed as the sequence of its entries.
pub struct OrderedMap<V> {
    entries: Vec<(usize, V)>,
    index: IndexMap<usize, (), RandomState>,
}

impl<V> View for OrderedMap<V> {
    type V = Seq<(usize, V)>;

    closed spec fn view(&self) -> Seq<(usize, V)> {
        self.entries@
    }
}

impl<V> OrderedMap<V> {
    /// The index holds the keys of the entries, place by place, and no key occurs twice.
    pub closed spec fn wf(&self) -> bool {
        &&& key_order(self.index) == keys(self.entries@)
        &&& distinct_keys(self.entries@)
    }

    /// The keys of a well-formed map are distinct.
    pub proof fn lemma_wf_distinct(&self)
        requires
            self.wf(),
        ensures
            distinct_keys(self@),
    {
    }

    /// Creates an empty map.
    pub fn new() -> (r: Self)
        ensures
            r.wf(),
            r@ == Seq::<(usize, V)>::empty(),
    {
        let r = OrderedMap { entries: Vec::new(), index: index_new() };
        assert(keys(r.entries@) =~= Seq::<usize>::empty());
        r
    }

    /// Builds the map that holds `entries`, in their order.
    pub fn from_entries(entries: Vec<(usize, V)>) -> (r: Self)
        requires
            distinct_keys(entries@),
        ensures
            r.wf(),
            r@ == entries@,
    {
        let mut index = index_new();
        let mut i: usize = 0;
        while i < entries.len()
            invariant
                i <= entries@.len(),
                distinct_keys(entries@),
                key_order(index) == keys(entries@.subrange(0, i as int)),
            decreases entries@.len() - i,
        {
            let key = entries[i].0;
            proof {
                let done = keys(entries@.subrange(0, i as int));
                if done.contains(key) {
                    let j = choose|j: int| 0 <= j < done.len() && done[j] == key;
                    assert(entries@[j].0 == entries@[i as int].0);
                }
            }
            let _ = index_insert(&mut index, key);
            i += 1;
            assert(key_order(index) =~= keys(entries@.subrange(0, i as int)));
        }
        assert(entries@.subrange(0, i as int) =~= entries@);
        OrderedMap { entries, index }
    }

    /// Builds a map by inserting `pairs` one after the other: a later pair overwrites the
    /// value of an earlier one with the same key, in the earlier one's place.
    pub fn from_iter(pairs: Vec<(usize, V)>) -> (r: Self)
        ensures
            r.wf(),
            r@ == inserted_all(Seq::<(usize, V)>::empty(), pairs@),
    {
        let mut map: OrderedMap<V> = OrderedMap::new();
        for pair in iter: pairs
            invariant
                iter.seq() == pairs@,
                map.wf(),
                map@ == inserted_all(Seq::<(usize, V)>::empty(), pairs@.take(iter.index())),
        {
            assert(pairs@.take(iter.index() + 1).drop_last() =~= pairs@.take(iter.index()));
            let _ = map.insert_full(pair.0, pair.1);
        }
        assert(pairs@.take(pairs@.len() as int) =~= pairs@);
        map
    }

    /// The entries, in their order.
    pub fn as_entries(&self) -> (entries: &Vec<(usize, V)>)
        ensures
            entries@ == self@,
    {
        &self.entries
    }

    /// Gives the entries up, in their order.
    pub fn into_entries(self) -> (entries: Vec<(usize, V)>)
        ensures
            entries@ == self@,
    {
        self.entries
    }

    /// Return the number of key-value pairs in the map.
    pub fn len(&self) -> (n: usize)
        ensures
            n == self@.len(),
    {
        self.entries.len()
    }

    /// Returns true if the map contains no elements.
    pub fn is_empty(&self) -> (b: bool)
        ensures
            b == (self@.len() == 0),
    {
        self.entries.len() == 0
    }

    /// Return the item index for `key`, if it is present, else `None`.
    pub fn get_index_of(&self, key: usize) -> (r: Option<usize>)
        requires
            self.wf(),
        ensures
            match r {
                Some(i) => position(self@, key) == Some(i as int),
                None => position(self@, key) is None,
            },
    {
        let place = index_position(&self.index, key);
        proof {
            match place {
                Some(i) => {
                    assert(keys(self.entries@)[i as int] == key);
                    lemma_position_distinct(self.entries@, i as int);
                },
                None => {
                    assert forall|j: int| 0 <= j < self.entries@.len() implies self.entries@[j].0
                        != key by {
                        assert(keys(self.entries@)[j] == self.entries@[j].0);
                    }
                    lemma_position_none(self.entries@, key);
                },
            }
        }
        place
    }

    /// Return `true` if an equivalent to `key` exists in the map.
    pub fn contains_key(&self, key: usize) -> (b: bool)
        requires
            self.wf(),
        ensures
            b == position(self@, key).is_some(),
    {
        self.get_index_of(key).is_some()
    }

    /// Get a key-value pair by index, if it is present, else `None`.
    pub fn get_index(&self, index: usize) -> (r: Option<(&usize, &V)>)
        ensures
            r == if index < self@.len() {
                Some((&self@[index as int].0, &self@[index as int].1))
            } else {
                None
            },
    {
        if index < self.entries.len() {
            let entry = &self.entries[index];
            Some((&entry.0, &entry.1))
        } else {
            None
        }
    }

    /// Return a reference to the value stored for `key`, if it is present, else `None`.
    pub fn get(&self, key: usize) -> (r: Option<&V>)
        requires
            self.wf(),
        ensures
            r == match position(self@, key) {
                Some(i) => Some(&self@[i].1),
                None => None,
            },
    {
        proof {
            lemma_position(self@, key);
        }
        match self.get_index_of(key) {
            Some(i) => Some(&self.entries[i].1),
            None => None,
        }
    }

    /// Get a key-value pair by index, with the value mutable, if it is present, else `None`.
    pub fn get_index_mut(&mut self, index: usize) -> (r: Option<(&usize, &mut V)>)
        requires
            old(self).wf(),
        ensures
            final(self).wf(),
            match r {
                Some((key, value)) => {
                    &&& index < old(self)@.len()
                    &&& *key == old(self)@[index as int].0
                    &&& *value == old(self)@[index as int].1
                    &&& final(self)@ == old(self)@.update(index as int, (*key, *final(value)))
                },
                None => index >= old(self)@.len() && final(self)@ == old(self)@,
            },
            final(self)@.len() == old(self)@.len(),
    {
        if index < self.entries.len() {
            proof {
                lemma_same_keys_updated(self.entries@, index as int);
            }
            let entry = &mut self.entries[index];
            Some((&entry.0, &mut entry.1))
        } else {
            None
        }
    }

    /// Return a mutable reference to the value stored for `key`, if it is present, else
    /// `None`.
    pub fn get_mut(&mut self, key: usize) -> (r: Option<&mut V>)
        requires
            old(self).wf(),
        ensures
            final(self).wf(),
            match r {
                Some(value) => {
                    &&& position(old(self)@, key) is Some
                    &&& *value == old(self)@[position(old(self)@, key).unwrap()].1
                    &&& final(self)@ == old(self)@.update(
                        position(old(self)@, key).unwrap(),
                        (key, *final(value)),
                    )
                },
                None => position(old(self)@, key) is None && final(self)@ == old(self)@,
            },
            final(self)@.len() == old(self)@.len(),
    {
        proof {
            lemma_position(self@, key);
        }
        match self.get_index_of(key) {
            Some(i) => {
                proof {
                    lemma_same_keys_updated(self.entries@, i as int);
                }
                Some(&mut self.entries[i].1)
            },
            None => None,
        }
    }

    /// Insert a key-value pair in the map, and get their index.
    ///
    /// If the key already exists in the map: the key remains and retains in its place in
    /// the order, its corresponding value is updated with `value`, and the older value is
    /// returned inside `(index, Some(_))`.
    ///
    /// If the key did not exist in the map: the new key-value pair is inserted, last in
    /// order, and `(index, None)` is returned.
    pub fn insert_full(&mut self, key: usize, value: V) -> (r: (usize, Option<V>))
        requires
            old(self).wf(),
        ensures
            final(self).wf(),
            final(self)@ == inserted(old(self)@, key, value),
            match position(old(self)@, key) {
                Some(i) => r.0 == i && r.1 == Some(old(self)@[i].1),
                None => r.0 == old(self)@.len() && r.1 is None,
            },
    {
        proof {
            lemma_position(self.entries@, key);
            lemma_inserted(self.entries@, key, value);
            if keys(self.entries@).contains(key) {
                let j = choose|j: int| 0 <= j < keys(self.entries@).len() && keys(self.entries@)[j] == key;
                assert(self.entries@[j].0 == key);
            }
            if position(self.entries@, key) is Some {
                let i = position(self.entries@, key).unwrap();
                assert(keys(self.entries@)[i] == key);
            }
        }
        let (place, known) = index_insert(&mut self.index, key);
        match known {
            Some(_) => {
                proof {
                    assert(keys(self.entries@)[place as int] == key);
                    lemma_position_distinct(self.entries@, place as int);
                }
                let mut entry = (key, value);
                core::mem::swap(&mut self.entries[place], &mut entry);
                (place, Some(entry.1))
            },
            None => {
                self.entries.push((key, value));
                (place, None)
            },
        }
    }

    /// Remove the key-value pair of `key` and return it and the index it had.
    ///
    /// Like [`Vec::swap_remove`], the pair is removed by swapping it with the last element
    /// of the map and popping it off. This perturbs the position of what used to be the
    /// last element.
    ///
    /// Return `None` if `key` is not in map.
    pub fn swap_remove_full(&mut self, key: usize) -> (r: Option<(usize, usize, V)>)
        requires
            old(self).wf(),
        ensures
            final(self).wf(),
            match r {
                Some((index, removed_key, value)) => {
                    &&& position(old(self)@, key) == Some(index as int)
                    &&& removed_key == key
                    &&& value == old(self)@[index as int].1
                    &&& final(self)@ == swap_removed(old(self)@, index as int)
                },
                None => position(old(self)@, key) is None && final(self)@ == old(self)@,
            },
    {
        proof {
            lemma_position(self.entries@, key);
            if position(self.entries@, key) is Some {
                let i = position(self.entries@, key).unwrap();
                assert(keys(self.entries@)[i] == key);
            }
        }
        match index_swap_remove(&mut self.index, key) {
            Some((place, _, _)) => {
                proof {
                    assert(keys(self.entries@)[place as int] == key);
                    lemma_position_distinct(self.entries@, place as int);
                    lemma_swap_removed(self.entries@, place as int);
                }
                let entry = self.entries.swap_remove(place);
                Some((place, entry.0, entry.1))
            },
            None => None,
        }
    }
}

/// A copy of `entries` with each value cloned.
pub(crate) fn clone_entries<V: Clone>(entries: &Vec<(usize, V)>) -> (r: Vec<(usize, V)>)
    ensures
        entries_cloned(entries@, r@),
{
    let mut r: Vec<(usize, V)> = Vec::with_capacity(entries.len());
    let mut i: usize = 0;
    while i < entries.len()
        invariant
            i <= entries@.len(),
            entries_cloned(entries@.take(i as int), r@),
        decreases entries@.len() - i,
    {
        let entry = &entries[i];
        r.push((entry.0, entry.1.clone()));
        i += 1;
    }
    assert(entries@.take(i as int) =~= entries@);
    r
}

impl<V: Clone> Clone for OrderedMap<V> {
    /// A map with the same keys in the same order, and a clone of each value.
    fn clone(&self) -> (r: Self)
        ensures
            entries_cloned(self@, r@),
            self.wf() ==> r.wf(),
    {
        let entries = clone_entries(&self.entries);
        proof {
            lemma_entries_cloned_keys(self.entries@, entries@);
        }
        OrderedMap { entries, index: index_clone(&self.index) }
    }
}

} // verus!
