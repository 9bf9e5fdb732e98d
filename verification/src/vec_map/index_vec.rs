//! [`IndexVec`] is a vector whose positions are addressed by keys.
use std::marker::PhantomData;
use vstd::prelude::*;

use crate::vec_map::IndexKey;
use crate::vec_map::names_key;

verus! {

/// A vector in which the value at position `i` belongs to the key with index `i`.
pub struct IndexVec<K, V> {
    data: Vec<V>,
    _marker: PhantomData<K>,
}

/// Calls `Vec::capacity`. The standard library promises that a vector can hold at least
/// the elements that it has.
#[verifier::external_body]
fn vec_capacity<V>(data: &Vec<V>) -> (capacity: usize)
    ensures
        capacity >= data@.len(),
{
    data.capacity()
}

impl<K, V> View for IndexVec<K, V> {
    type V = Seq<V>;

    /// The values, by the index of their key.
    closed spec fn view(&self) -> Seq<V> {
        self.data@
    }
}

impl<K: IndexKey, V> IndexVec<K, V> {
    /// Initializes an empty [`IndexVec`].
    ///
    /// For performance reasons it's almost always better to avoid dynamic
    /// resizing by using [`Self::with_capacity()`] instead.
    pub fn new() -> (r: Self)
        ensures
            r@ == Seq::<V>::empty(),
    {
        Self { data: Vec::new(), _marker: PhantomData }
    }

    /// Returns the number of elements the collection can hold without reallocating.
    ///
    /// The index range of items that the collection can hold without reallocating is
    /// `0..capacity`.
    pub fn capacity(&self) -> (capacity: usize)
        ensures
            capacity >= self@.len(),
    {
        vec_capacity(&self.data)
    }

    /// Initializes [`IndexVec`] with capacity to hold exactly `n` elements in the
    /// index range of `0..n`.
    pub fn with_capacity(n: usize) -> (r: Self)
        ensures
            r@ == Seq::<V>::empty(),
    {
        Self { data: Vec::with_capacity(n), _marker: PhantomData }
    }

    /// Clears all data from the [`IndexVec`] without changing the capacity.
    pub fn clear(&mut self)
        ensures
            final(self)@ == Seq::<V>::empty(),
    {
        self.data.clear();
    }

    /// Reserve capacity for `additional` key-value pairs.
    pub fn reserve(&mut self, additional: usize)
        ensures
            final(self)@ == old(self)@,
    {
        self.data.reserve(additional);
    }

    /// Removes the last key-value pair.
    ///
    /// Performance: O(1)
    pub fn pop(&mut self) -> (r: Option<(K, V)>)
        requires
            old(self)@.len() > 0 ==> names_key::<K>((old(self)@.len() - 1) as usize),
        ensures
            old(self)@.len() == 0 ==> r.is_none() && final(self)@ == old(self)@,
            old(self)@.len() > 0 ==> r == Some(
                (K::key_spec((old(self)@.len() - 1) as usize), old(self)@.last()),
            ) && final(self)@ == old(self)@.drop_last(),
    {
        match self.data.pop() {
            Some(value) => Some((K::from_index(self.data.len()), value)),
            None => None,
        }
    }

    /// Returns a reference to the value associated with `key` if it exists,
    /// otherwise returns `None`.
    pub fn get(&self, key: K) -> (r: Option<&V>)
        ensures
            r == if key.index_spec() < self@.len() {
                Some(&self@[key.index_spec() as int])
            } else {
                None
            },
    {
        let index = key.as_index();
        if index < self.data.len() {
            Some(&self.data[index])
        } else {
            None
        }
    }

    /// Returns a mutable reference to the value associated with `key` if it
    /// exists, otherwise returns `None`.
    pub fn get_mut(&mut self, key: K) -> (r: Option<&mut V>)
        ensures
            match r {
                Some(value) => {
                    &&& key.index_spec() < old(self)@.len()
                    &&& *value == old(self)@[key.index_spec() as int]
                    &&& final(self)@ == old(self)@.update(key.index_spec() as int, *final(value))
                },
                None => key.index_spec() >= old(self)@.len() && final(self)@ == old(self)@,
            },
    {
        let index = key.as_index();
        if index < self.data.len() {
            Some(&mut self.data[index])
        } else {
            None
        }
    }

    /// Return the number of key-value pairs in the map.
    pub fn len(&self) -> (n: usize)
        ensures
            n == self@.len(),
    {
        self.data.len()
    }

    /// Returns `true` if the map contains no elements.
    pub fn is_empty(&self) -> (b: bool)
        ensures
            b == (self@.len() == 0),
    {
        self.len() == 0
    }

    /// Returns `true` if the map contains an item with the specified `key`.
    pub fn contains_key(&self, key: K) -> (b: bool)
        ensures
            b == (key.index_spec() < self@.len()),
    {
        self.get(key).is_some()
    }
}

impl<K: IndexKey, V: Clone> IndexVec<K, V> {
    /// Initializes [`IndexVec`] with `n` occurrences of `elem`.
    pub fn from_elem(elem: V, n: usize) -> (r: Self)
        ensures
            r@.len() == n,
            forall|i: int| 0 <= i < n ==> cloned(elem, #[trigger] r@[i]),
    {
        Self { data: vec![elem; n], _marker: PhantomData }
    }
}

/// An iterator that iterates over the key-value pairs following the key
/// ordering.
pub struct Iter<'a, K, V> {
    data: &'a Vec<V>,
    front: usize,
    _marker: PhantomData<K>,
}

impl<'a, K, V> Iter<'a, K, V> {
    /// The index at which the pairs that are left begin.
    pub closed spec fn passed(&self) -> nat {
        self.front as nat
    }

    /// The values of the vector that the cursor goes over.
    pub closed spec fn values(&self) -> Seq<V> {
        self.data@
    }

    /// The cursor has passed no more values than there are.
    pub closed spec fn wf(&self) -> bool {
        self.front <= self.data@.len()
    }
}

impl<'a, K: IndexKey, V> Clone for Iter<'a, K, V> {
    fn clone(&self) -> (r: Self)
        ensures
            r.passed() == self.passed(),
            r.values() == self.values(),
            r.wf() == self.wf(),
    {
        Iter { data: self.data, front: self.front, _marker: PhantomData }
    }
}

impl<'a, K: IndexKey, V> Iter<'a, K, V> {
    /// Hands out the next pair, if any is left: the key that the index names, and the
    /// value at the index.
    pub fn next(&mut self) -> (r: Option<(K, &'a V)>)
        requires
            old(self).wf(),
            old(self).passed() < old(self).values().len() ==> names_key::<K>(
                old(self).passed() as usize,
            ),
        ensures
            final(self).wf(),
            final(self).values() == old(self).values(),
            match r {
                Some((key, value)) => {
                    &&& old(self).passed() < old(self).values().len()
                    &&& key == K::key_spec(old(self).passed() as usize)
                    &&& *value == old(self).values()[old(self).passed() as int]
                    &&& final(self).passed() == old(self).passed() + 1
                },
                None => {
                    &&& old(self).passed() == old(self).values().len()
                    &&& final(self).passed() == old(self).passed()
                },
            },
    {
        if self.front < self.data.len() {
            let index = self.front;
            self.front += 1;
            Some((K::from_index(index), &self.data[index]))
        } else {
            None
        }
    }
}

impl<K: IndexKey, V> IndexVec<K, V> {
    /// Returns an iterator over the key-value pairs of the map, following the
    /// natural order of the keys.
    pub fn iter(&self) -> (r: Iter<'_, K, V>)
        ensures
            r.wf(),
            r.passed() == 0,
            r.values() == self@,
    {
        Iter { data: &self.data, front: 0, _marker: PhantomData }
    }
}

} // verus!
