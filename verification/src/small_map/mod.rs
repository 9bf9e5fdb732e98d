//! [`SmallMap`] is a map that keeps up to `C` entries in a short list and moves all of them
//! to a hashed [`OrderedMap`] when there are more.
use std::cmp::Ordering;
use std::fmt::Debug;
use vstd::prelude::*;

pub mod entry;
pub mod eq;
pub mod index;
pub mod iter;
pub mod laws;

pub use entry::Entry;
pub use iter::IntoIter;
pub use iter::Iter;
pub use iter::IterMut;
pub use iter::Keys;

use crate::debug_text::append_entry;
use crate::debug_text::close_brace;
use crate::debug_text::debug_piece;
use crate::debug_text::entries_layout;
use crate::debug_text::map_layout;
use crate::debug_text::open_brace;
use crate::entries::distinct_keys;
use crate::entries::entries_cloned;
use crate::entries::inserted;
use crate::entries::inserted_all;
use crate::entries::keys;
use crate::entries::lemma_entries_cloned_keys;
use crate::entries::lemma_inserted;
use crate::entries::lemma_position;
use crate::entries::lemma_position_is;
use crate::entries::lemma_position_none;
use crate::entries::lemma_same_keys_updated;
use crate::entries::lemma_swap_removed;
use crate::entries::place;
use crate::entries::position;
use crate::entries::swap_removed;
use crate::ordered_map::clone_entries;
use crate::ordered_map::OrderedMap;

verus! {

/// A map-like container that can store a specified number of elements inline.
///
/// `SmallMap` behaves like an insertion-ordered map. It keeps a limited number of entries
/// in a list that is searched from the front. If the data exceeds the limit `C`,
/// `SmallMap` moves _all_ its data over to an [`OrderedMap`], and moves it back when a
/// removal leaves `C` entries or fewer. For performance reasons, transitions between the
/// two should generally be avoided.
///
/// The `SmallMap` datastructure is meant for situations where the data does not exceed
/// `C` _most of the time_ but it still needs to support cases where the data _does_ exceed
/// `C`.
///
/// The map is viewed as the sequence of its entries, in their order. Which of the two
/// representations holds them follows from their number.
pub struct SmallMap<V, const C: usize> {
    data: MapData<V>,
}

enum MapData<V> {
    Inline(Vec<(usize, V)>),
    Heap(OrderedMap<V>),
}

impl<V, const C: usize> View for SmallMap<V, C> {
    type V = Seq<(usize, V)>;

    closed spec fn view(&self) -> Seq<(usize, V)> {
        match self.data {
            MapData::Inline(list) => list@,
            MapData::Heap(map) => map@,
        }
    }
}

/// Whether `order` is an answer that the comparator `f` may give for the entry at `i`.
pub open spec fn answers<'a, V: 'a, F: Fn((&'a usize, &'a V)) -> Ordering>(
    f: F,
    entries: Seq<(usize, V)>,
    i: int,
    order: Ordering,
) -> bool {
    f.ensures(((&entries[i].0, &entries[i].1),), order)
}

/// What a binary search with the comparator `f` may give on `entries`: the place of an
/// entry for which `f` answers `Equal`; or a place with `Less` just before it and
/// `Greater` at it, as far as there are entries there.
pub open spec fn search_outcome<'a, V: 'a, F: Fn((&'a usize, &'a V)) -> Ordering>(
    f: F,
    entries: Seq<(usize, V)>,
    r: Result<usize, usize>,
) -> bool {
    match r {
        Ok(i) => i < entries.len() && answers(f, entries, place(i), Ordering::Equal),
        Err(i) => {
            &&& i <= entries.len()
            &&& i > 0 ==> answers(f, entries, place(i) - 1, Ordering::Less)
            &&& i < entries.len() ==> answers(f, entries, place(i), Ordering::Greater)
        },
    }
}

/// Searches `list` for `key` from the front.
fn list_position<V>(list: &Vec<(usize, V)>, key: usize) -> (r: Option<usize>)
    ensures
        match r {
            Some(i) => position(list@, key) == Some(i as int),
            None => position(list@, key) is None,
        },
{
    let mut i: usize = 0;
    while i < list.len()
        invariant
            i <= list@.len(),
            forall|j: int| 0 <= j < i ==> list@[j].0 != key,
        decreases list@.len() - i,
    {
        if list[i].0 == key {
            proof {
                lemma_position_is(list@, key, i as int);
            }
            return Some(i);
        }
        i += 1;
    }
    proof {
        lemma_position_none(list@, key);
    }
    None
}

/// Whether no key occurs twice in `entries`.
pub fn has_distinct_keys<V>(entries: &Vec<(usize, V)>) -> (b: bool)
    ensures
        b == distinct_keys(entries@),
{
    let mut i: usize = 0;
    while i < entries.len()
        invariant
            i <= entries@.len(),
            forall|a: int, b: int| 0 <= a < b < entries@.len() && a < i ==> entries@[a].0 != entries@[b].0,
        decreases entries@.len() - i,
    {
        let mut j: usize = i + 1;
        while j < entries.len()
            invariant
                i < j <= entries@.len(),
                forall|b: int| i < b < j ==> entries@[i as int].0 != entries@[b].0,
            decreases entries@.len() - j,
        {
            if entries[i].0 == entries[j].0 {
                return false;
            }
            j += 1;
        }
        i += 1;
    }
    true
}

/// Searches `list` for `key` from the front and gives a mutable reference to its value.
fn list_get_mut<V>(list: &mut Vec<(usize, V)>, key: usize) -> (r: Option<&mut V>)
    ensures
        match r {
            Some(value) => {
                &&& position(old(list)@, key) is Some
                &&& *value == old(list)@[position(old(list)@, key).unwrap()].1
                &&& final(list)@ == old(list)@.update(
                    position(old(list)@, key).unwrap(),
                    (key, *final(value)),
                )
            },
            None => position(old(list)@, key) is None && final(list)@ == old(list)@,
        },
        final(list)@.len() == old(list)@.len(),
        distinct_keys(old(list)@) ==> distinct_keys(final(list)@),
{
    proof {
        lemma_position(list@, key);
    }
    match list_position(list, key) {
        Some(i) => {
            proof {
                lemma_same_keys_updated(list@, i as int);
            }
            Some(&mut list[i].1)
        },
        None => None,
    }
}

impl<V, const C: usize> SmallMap<V, C> {
    /// The entries are in the list exactly when there are at most `C` of them, and no key
    /// occurs twice.
    pub closed spec fn wf(&self) -> bool {
        match self.data {
            MapData::Inline(list) => list@.len() <= C && distinct_keys(list@),
            MapData::Heap(map) => map@.len() > C && map.wf(),
        }
    }

    /// Whether the entries are in the list, and not in the hashed map.
    pub closed spec fn inline(&self) -> bool {
        self.data is Inline
    }

    /// The representation follows from the number of entries, and the keys are distinct.
    pub proof fn lemma_wf(&self)
        requires
            self.wf(),
        ensures
            self.inline() == (self@.len() <= C),
            distinct_keys(self@),
    {
        match self.data {
            MapData::Inline(list) => {},
            MapData::Heap(map) => {
                map.lemma_wf_distinct();
            },
        }
    }

    /// Create a new map.
    #[must_use]
    pub fn new() -> (r: Self)
        requires
            C > 0,
        ensures
            r.wf(),
            r@ == Seq::<(usize, V)>::empty(),
    {
        SmallMap { data: MapData::Inline(Vec::new()) }
    }

    /// The number of key-values stored in the map.
    pub fn len(&self) -> (n: usize)
        ensures
            n == self@.len(),
    {
        match &self.data {
            MapData::Inline(list) => list.len(),
            MapData::Heap(map) => map.len(),
        }
    }

    /// Returns `true` if the map is empty.
    pub fn is_empty(&self) -> (b: bool)
        ensures
            b == (self@.len() == 0),
    {
        self.len() == 0
    }

    /// The number of entries that the list holds. If the number of values exceeds the
    /// inline capacity, the map will move to the heap.
    pub fn inline_capacity(&self) -> (n: usize)
        ensures
            n == C,
    {
        C
    }

    /// Is the data contained by this map stored inline (`true`) or on the heap
    /// (`false`).
    pub fn is_inline(&self) -> (b: bool)
        ensures
            b == self.inline(),
            self.wf() ==> b == (self@.len() <= C),
    {
        match &self.data {
            MapData::Inline(_) => true,
            MapData::Heap(_) => false,
        }
    }

    /// The text of the map for debugging: `{key: value, key: value}`, each key and value
    /// as its `Debug` writes it, in the order of the entries.
    pub fn debug_string(&self) -> (text: String) where V: Debug
        ensures
            exists|parts: Seq<(Seq<char>, Seq<char>)>|
                parts.len() == self@.len() && text@ == #[trigger] map_layout(parts),
    {
        let mut text = open_brace();
        let ghost mut parts = Seq::<(Seq<char>, Seq<char>)>::empty();
        let n = self.len();
        let mut i: usize = 0;
        while i < n
            invariant
                i <= n,
                n == self@.len(),
                parts.len() == i,
                text@ == seq!['{'] + entries_layout(parts),
            decreases n - i,
        {
            let (key, value) = self.get_index(i).unwrap();
            let key_text = debug_piece(key);
            let value_text = debug_piece(value);
            append_entry(&mut text, &key_text, &value_text, i == 0, Ghost(parts));
            proof {
                parts = parts.push((key_text@, value_text@));
            }
            i += 1;
        }
        close_brace(&mut text);
        assert(text@ == map_layout(parts));
        text
    }

    /// Returns an iterator over the key-values in insertion order.
    pub fn iter(&self) -> (r: Iter<'_, V>)
        ensures
            r.wf(),
            r@ == self@,
    {
        match &self.data {
            MapData::Inline(list) => Iter::new(list),
            MapData::Heap(map) => Iter::new(map.as_entries()),
        }
    }

    /// Returns an iterator over the key-values in insertion order, with the values
    /// mutable.
    pub fn iter_mut(&mut self) -> (r: IterMut<'_, V, C>)
        requires
            old(self).wf(),
        ensures
            r.wf(),
            r.passed == 0,
            *r.map == *old(self),
            *final(r.map) == *final(self),
    {
        IterMut::new(self)
    }

    /// Returns an iterator over the keys in insertion order.
    pub fn keys(&self) -> (r: Keys<'_, V>)
        ensures
            r.wf(),
            r@ == keys(self@),
    {
        match &self.data {
            MapData::Inline(list) => Keys::new(list),
            MapData::Heap(map) => Keys::new(map.as_entries()),
        }
    }

    /// Turns the map into an iterator that gives up the key-values in insertion order.
    pub fn into_iter(self) -> (r: IntoIter<V>)
        ensures
            r@ == self@,
    {
        match self.data {
            MapData::Inline(list) => IntoIter::new(list),
            MapData::Heap(map) => IntoIter::new(map.into_entries()),
        }
    }

    /// Return the item index, if it exists in the map, else `None`.
    ///
    /// Computational complexity:
    ///  - inline: O(n)
    ///  - heap: O(1)
    pub fn get_index_of(&self, key: usize) -> (r: Option<usize>)
        requires
            self.wf(),
        ensures
            match r {
                Some(i) => position(self@, key) == Some(i as int),
                None => position(self@, key) is None,
            },
    {
        match &self.data {
            MapData::Inline(list) => list_position(list, key),
            MapData::Heap(map) => map.get_index_of(key),
        }
    }

    /// Get the given key's corresponding entry in the map for insertion and/or
    /// in-place manipulation.
    ///
    /// Computational complexity:
    ///  - inline: O(n)
    ///  - heap: O(1)
    pub fn entry(&mut self, key: usize) -> (entry: Entry<'_, V, C>)
        requires
            old(self).wf(),
        ensures
            entry.wf(),
            *entry.map() == *old(self),
            *final(entry.map()) == *final(self),
            match entry {
                Entry::Occupied(_, index) => position(old(self)@, key) == Some(index as int),
                Entry::Vacant(_, vacant_key) => vacant_key == key && position(old(self)@, key)
                    is None,
            },
    {
        proof {
            lemma_position(self@, key);
        }
        let index = self.get_index_of(key);
        match index {
            Some(index) => Entry::Occupied(self, index),
            None => Entry::Vacant(self, key),
        }
    }

    /// Return `true` if an equivalent to `key` exists in the map.
    ///
    /// Computational complexity:
    ///  - inline: O(n)
    ///  - heap: O(1)
    pub fn contains_key(&self, key: usize) -> (b: bool)
        requires
            self.wf(),
        ensures
            b == position(self@, key).is_some(),
    {
        self.get_index_of(key).is_some()
    }

    /// Return a reference to the value stored for `key`, if it is present,
    /// else `None`.
    ///
    /// Computational complexity:
    ///  - inline: O(n)
    ///  - heap: O(1)
    pub fn get(&self, key: usize) -> (r: Option<&V>)
        requires
            self.wf(),
        ensures
            r == match position(self@, key) {
                Some(i) => Some(&self@[i].1),
                None => None,
            },
    {
        match &self.data {
            MapData::Inline(list) => {
                proof {
                    lemma_position(list@, key);
                }
                match list_position(list, key) {
                    Some(i) => Some(&list[i].1),
                    None => None,
                }
            },
            MapData::Heap(map) => map.get(key),
        }
    }

    /// Get a key-value pair by index, if it is present, else `None`.
    ///
    /// Computational complexity: O(1)
    pub fn get_index(&self, index: usize) -> (r: Option<(&usize, &V)>)
        ensures
            r == if index < self@.len() {
                Some((&self@[index as int].0, &self@[index as int].1))
            } else {
                None
            },
    {
        match &self.data {
            MapData::Inline(list) => {
                if index < list.len() {
                    let entry = &list[index];
                    Some((&entry.0, &entry.1))
                } else {
                    None
                }
            },
            MapData::Heap(map) => map.get_index(index),
        }
    }

    /// Return a mutable reference to the value stored for `key`, if it is
    /// present, else `None`.
    ///
    /// Computational complexity:
    ///  - inline: O(n)
    ///  - heap: O(1)
    pub fn get_mut(&mut self, key: usize) -> (r: Option<&mut V>)
        requires
            old(self).wf(),
        ensures
            final(self).wf(),
            match r {
                Some(value) => {
                    &&& position(old(self)@, key) is Some
                    &&& *value == old(self)@[position(old(self)@, key).unwrap()].1
                    &&& final(self)@ == old(self)@.update(
                        position(old(self)@, key).unwrap(),
                        (key, *final(value)),
                    )
                },
                None => position(old(self)@, key) is None && final(self)@ == old(self)@,
            },
            final(self)@.len() == old(self)@.len(),
    {
        match &mut self.data {
            MapData::Inline(list) => list_get_mut(list, key),
            MapData::Heap(map) => map.get_mut(key),
        }
    }

    /// Get a mutable key-value pair by index, if it is present, else `None`.
    ///
    /// Computational complexity: O(1)
    pub fn get_index_mut(&mut self, index: usize) -> (r: Option<(&usize, &mut V)>)
        requires
            old(self).wf(),
        ensures
            final(self).wf(),
            match r {
                Some((key, value)) => {
                    &&& index < old(self)@.len()
                    &&& *key == old(self)@[index as int].0
                    &&& *value == old(self)@[index as int].1
                    &&& final(self)@ == old(self)@.update(index as int, (*key, *final(value)))
                },
                None => index >= old(self)@.len() && final(self)@ == old(self)@,
            },
            final(self)@.len() == old(self)@.len(),
    {
        match &mut self.data {
            MapData::Inline(list) => {
                if index < list.len() {
                    proof {
                        lemma_same_keys_updated(list@, index as int);
                    }
                    let entry = &mut list[index];
                    Some((&entry.0, &mut entry.1))
                } else {
                    None
                }
            },
            MapData::Heap(map) => map.get_index_mut(index),
        }
    }

    /// Builds the map that holds `inline`, whose keys are distinct, in the list.
    pub fn from_const_unchecked(inline: Vec<(usize, V)>) -> (r: Self)
        requires
            inline@.len() <= C,
            distinct_keys(inline@),
        ensures
            r.wf(),
            r@ == inline@,
    {
        SmallMap { data: MapData::Inline(inline) }
    }

    /// Builds a map by inserting `pairs` one after the other: a later pair overwrites the
    /// value of an earlier one with the same key, in the earlier one's place.
    pub fn from_iter(pairs: Vec<(usize, V)>) -> (r: Self)
        ensures
            r.wf(),
            r@ == inserted_all(Seq::<(usize, V)>::empty(), pairs@),
    {
        if pairs.len() <= C {
            let mut map: SmallMap<V, C> = SmallMap { data: MapData::Inline(Vec::new()) };
            for pair in iter: pairs
                invariant
                    iter.seq() == pairs@,
                    map.wf(),
                    map@ == inserted_all(Seq::<(usize, V)>::empty(), pairs@.take(iter.index())),
            {
                assert(pairs@.take(iter.index() + 1).drop_last() =~= pairs@.take(iter.index()));
                let _ = map.insert(pair.0, pair.1);
            }
            assert(pairs@.take(pairs@.len() as int) =~= pairs@);
            map
        } else {
            Self::from_map(OrderedMap::from_iter(pairs))
        }
    }

    /// Convert the specified map and turn it into a `SmallMap`.
    ///
    /// If the map len is smaller or equal the inline capacity, the data will be
    /// moved inline.
    pub fn from_map(map: OrderedMap<V>) -> (r: Self)
        requires
            map.wf(),
        ensures
            r.wf(),
            r@ == map@,
    {
        if map.len() <= C {
            proof {
                map.lemma_wf_distinct();
            }
            SmallMap { data: MapData::Inline(map.into_entries()) }
        } else {
            SmallMap { data: MapData::Heap(map) }
        }
    }

    /// Binary searches this map with a comparator function.
    ///
    /// The comparator function should implement an order consistent with the
    /// sort order of the entries, returning an order code that
    /// indicates whether its argument is `Less`, `Equal` or `Greater` the
    /// desired target.
    ///
    /// If the value is found then [`Result::Ok`] is returned, containing the
    /// index of the matching element. If there are multiple matches, then any
    /// one of the matches could be returned.
    ///
    /// # Errors
    ///
    /// If the value is not found then [`Result::Err`] is returned, containing
    /// the index where a matching element could be inserted while maintaining
    /// sorted order.
    pub fn binary_search_by<'a, F>(&'a self, f: F) -> (r: Result<usize, usize>) where
        F: Fn((&'a usize, &'a V)) -> Ordering,

        requires
            forall|i: int|
                0 <= i < self@.len() ==> f.requires(((&self@[i].0, &self@[i].1),)),
        ensures
            search_outcome(f, self@, r),
    {
        let mut size = self.len();
        let mut left: usize = 0;
        let mut right: usize = size;
        while left < right
            invariant
                left <= right <= self@.len(),
                size == right - left,
                forall|i: int|
                    0 <= i < self@.len() ==> f.requires(((&self@[i].0, &self@[i].1),)),
                left > 0 ==> answers(f, self@, place(left) - 1, Ordering::Less),
                right < self@.len() ==> answers(f, self@, place(right), Ordering::Greater),
            decreases right - left,
        {
            let mid = left + size / 2;
            let (key, value) = self.get_index(mid).unwrap();
            match f((key, value)) {
                Ordering::Less => {
                    left = mid + 1;
                },
                Ordering::Greater => {
                    right = mid;
                },
                Ordering::Equal => {
                    return Ok(mid);
                },
            }
            size = right - left;
        }
        Err(left)
    }

    /// Inserts the specified key-value pair into this map, and get their
    /// index.
    ///
    /// If a value for the specified `key` already exists, the new value will
    /// overwrite the existing value. The key-value pair keeps its position in the
    /// iteration order.
    ///
    /// If a new key is added that causes the size of the `SmallMap` to exceed
    /// the inline capacity, all existing data and the new key-value pair is
    /// moved to the heap.
    ///
    /// Computational complexity:
    ///  - inline: O(n)
    ///  - heap: O(1)
    pub fn insert_full(&mut self, key: usize, value: V) -> (r: (usize, Option<V>))
        requires
            old(self).wf(),
        ensures
            final(self).wf(),
            final(self)@ == inserted(old(self)@, key, value),
            match position(old(self)@, key) {
                Some(i) => r.0 == i && r.1 == Some(old(self)@[i].1),
                None => r.0 == old(self)@.len() && r.1 is None,
            },
    {
        proof {
            old(self).lemma_wf();
            lemma_position(old(self)@, key);
            lemma_inserted(old(self)@, key, value);
        }
        match &mut self.data {
            MapData::Inline(list) => {
                let existing_index = list_position(list, key);
                if let Some(existing_index) = existing_index {
                    let mut entry = (key, value);
                    core::mem::swap(&mut list[existing_index], &mut entry);
                    (existing_index, Some(entry.1))
                } else if list.len() >= C {
                    // Move to heap
                    let mut entries: Vec<(usize, V)> = Vec::new();
                    core::mem::swap(list, &mut entries);
                    let mut map = OrderedMap::from_entries(entries);
                    let ret = map.insert_full(key, value);
                    self.data = MapData::Heap(map);
                    ret
                } else {
                    list.push((key, value));
                    (list.len() - 1, None)
                }
            },
            MapData::Heap(map) => map.insert_full(key, value),
        }
    }

    /// Inserts the specified key-value pair into this map.
    ///
    /// If a value for the specified `key` already exists, the new value will
    /// overwrite the existing value. The key-value pair keeps its position in the
    /// iteration order.
    ///
    /// If a new key is added that causes the size of the `SmallMap` to exceed
    /// the inline capacity, all existing data and the new key-value pair is
    /// moved to the heap.
    ///
    /// Computational complexity:
    ///  - inline: O(n)
    ///  - heap: O(1)
    pub fn insert(&mut self, key: usize, value: V) -> (previous: Option<V>)
        requires
            old(self).wf(),
        ensures
            final(self).wf(),
            final(self)@ == inserted(old(self)@, key, value),
            previous == match position(old(self)@, key) {
                Some(i) => Some(old(self)@[i].1),
                None => None,
            },
    {
        self.insert_full(key, value).1
    }

    /// Remove the key-value pair equivalent to `key` and return its index, key,
    /// and value.
    ///
    /// If `key` is not present `None` is returned.
    ///
    /// If an existing key is removed that causes the size of the `SmallMap` to
    /// be equal to or below the inline capacity, all remaining data after
    /// removal of the specified key-value pair is moved inline.
    ///
    /// The last entry takes the place of the removed one: order is not preserved.
    ///
    /// Computational complexity:
    ///  - inline: O(n)
    ///  - heap: O(1)
    pub fn swap_remove_full(&mut self, key: usize) -> (r: Option<(usize, usize, V)>)
        requires
            old(self).wf(),
        ensures
            final(self).wf(),
            match r {
                Some((index, removed_key, value)) => {
                    &&& position(old(self)@, key) == Some(index as int)
                    &&& removed_key == key
                    &&& value == old(self)@[index as int].1
                    &&& final(self)@ == swap_removed(old(self)@, index as int)
                },
                None => position(old(self)@, key) is None && final(self)@ == old(self)@,
            },
    {
        proof {
            old(self).lemma_wf();
            lemma_position(old(self)@, key);
        }
        match &mut self.data {
            MapData::Inline(list) => {
                match list_position(list, key) {
                    Some(index) => {
                        proof {
                            lemma_swap_removed(list@, index as int);
                        }
                        let entry = list.swap_remove(index);
                        Some((index, entry.0, entry.1))
                    },
                    None => None,
                }
            },
            MapData::Heap(map) => {
                let value = map.swap_remove_full(key);
                if value.is_some() && map.len() <= C {
                    proof {
                        map.lemma_wf_distinct();
                    }
                    let mut drained: OrderedMap<V> = OrderedMap::new();
                    core::mem::swap(map, &mut drained);
                    self.data = MapData::Inline(drained.into_entries());
                }
                value
            },
        }
    }

    /// Remove the key-value pair equivalent to `key` and return its value.
    ///
    /// If `key` is not present `None` is returned.
    ///
    /// If an existing key is removed that causes the size of the `SmallMap` to
    /// be equal to or below the inline capacity, all remaining data after
    /// removal of the specified key-value pair is moved inline.
    ///
    /// The last entry takes the place of the removed one: order is not preserved.
    ///
    /// Computational complexity:
    ///  - inline: O(n)
    ///  - heap: O(1)
    pub fn remove(&mut self, key: usize) -> (r: Option<V>)
        requires
            old(self).wf(),
        ensures
            final(self).wf(),
            match position(old(self)@, key) {
                Some(i) => r == Some(old(self)@[i].1) && final(self)@ == swap_removed(
                    old(self)@,
                    i,
                ),
                None => r.is_none() && final(self)@ == old(self)@,
            },
    {
        match self.swap_remove_full(key) {
            Some((_, _, value)) => Some(value),
            None => None,
        }
    }
}

impl<V: Clone, const C: usize> Clone for SmallMap<V, C> {
    /// A map with the same keys in the same order, and a clone of each value.
    fn clone(&self) -> (r: Self)
        ensures
            entries_cloned(self@, r@),
            self.wf() ==> r.wf(),
            r.inline() == self.inline(),
    {
        match &self.data {
            MapData::Inline(list) => {
                let copy = clone_entries(list);
                proof {
                    lemma_entries_cloned_keys(list@, copy@);
                }
                SmallMap { data: MapData::Inline(copy) }
            },
            MapData::Heap(map) => SmallMap { data: MapData::Heap(map.clone()) },
        }
    }
}

impl<V, const C: usize> Default for SmallMap<V, C> {
    /// The empty map.
    fn default() -> (r: Self)
        ensures
            r.wf(),
            r@ == Seq::<(usize, V)>::empty(),
    {
        SmallMap { data: MapData::Inline(Vec::new()) }
    }
}

} // verus!
