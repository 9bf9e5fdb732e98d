//! [`DenseVecMap`] is a vector-backed map that keeps a value in every slot.
use std::marker::PhantomData;
use vstd::prelude::*;

use crate::vec_map::IndexKey;

verus! {

/// A vector-backed map in which every slot holds a value: a default value where none was
/// given. It counts the values that were given.
///
/// The map is viewed as the sequence of its slots.
pub struct DenseVecMap<K, V> {
    data: Vec<V>,
    len: usize,
    _marker: PhantomData<K>,
}

impl<K, V> View for DenseVecMap<K, V> {
    type V = Seq<V>;

    closed spec fn view(&self) -> Seq<V> {
        self.data@
    }
}

/// The value itself.
pub fn identity<T>(t: T) -> (r: T)
    ensures
        r == t,
{
    t
}

/// Every value of `slots` is a clone of one default value.
pub open spec fn all_default<V: Clone + Default>(slots: Seq<V>) -> bool {
    exists|made: V|
        #![trigger V::default.ensures((), made)]
        V::default.ensures((), made) && forall|i: int|
            0 <= i < slots.len() ==> cloned(made, #[trigger] slots[i])
}

impl<K: IndexKey, V: Clone + Default> DenseVecMap<K, V> {
    /// The number of values that were given.
    pub closed spec fn given(&self) -> nat {
        self.len as nat
    }

    /// Initializes an empty map.
    ///
    /// For performance reasons it's almost always better to avoid dynamic
    /// resizing by using [`Self::with_capacity()`] instead.
    pub fn new() -> (r: Self)
        ensures
            r@ == Seq::<V>::empty(),
            r.given() == 0,
    {
        Self { data: Vec::new(), len: 0, _marker: PhantomData }
    }

    /// Returns the number of elements the map can hold without reallocating.
    ///
    /// The index range of items that the map can hold without reallocating is
    /// `0..capacity`.
    pub fn capacity(&self) -> (n: usize)
        ensures
            n == self@.len(),
    {
        self.data.len()
    }

    /// Initializes the map with capacity to hold exactly `n` elements in the index range
    /// of `0..n`.
    pub fn with_capacity(n: usize) -> (r: Self)
        ensures
            r@.len() == n,
            r.given() == 0,
            all_default(r@),
    {
        Self { data: vec![V::default(); n], len: 0, _marker: PhantomData }
    }

    /// Initializes the map with `n` occurrences of `elem`.
    pub fn from_elem(elem: V, n: usize) -> (r: Self)
        ensures
            r@.len() == n,
            r.given() == n,
            forall|i: int| 0 <= i < n ==> cloned(elem, #[trigger] r@[i]),
    {
        Self { data: vec![identity(elem); n], len: n, _marker: PhantomData }
    }

    /// Clears all data from the map without changing the capacity.
    pub fn clear(&mut self)
        ensures
            final(self)@.len() == old(self)@.len(),
            final(self).given() == 0,
            all_default(final(self)@),
    {
        self.len = 0;
        self.data = vec![V::default(); self.capacity()];
    }

    /// Reserve capacity for `additional` key-value pairs.
    pub fn reserve(&mut self, additional: usize)
        requires
            old(self)@.len() + additional <= usize::MAX,
        ensures
            final(self)@.len() == old(self)@.len() + additional,
            final(self)@.subrange(0, old(self)@.len() as int) == old(self)@,
            final(self).given() == old(self).given(),
            all_default(final(self)@.subrange(old(self)@.len() as int, final(self)@.len() as int)),
    {
        let mut more = vec![V::default(); additional];
        let ghost added = more@;
        self.data.append(&mut more);
        assert(self.data@.subrange(0, old(self)@.len() as int) =~= old(self)@);
        assert(self.data@.subrange(old(self)@.len() as int, self.data@.len() as int) =~= added);
    }
}

} // verus!
