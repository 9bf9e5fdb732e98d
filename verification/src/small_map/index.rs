//! Indexing a small map: `map[i]` is the value at the place `i`, `map[&key]` the value of
//! a key. Both ask that the map has what is indexed.
use std::ops::Index;
use vstd::prelude::*;

use crate::entries::position;
use crate::small_map::SmallMap;

verus! {

impl<V, const C: usize> Index<usize> for SmallMap<V, C> {
    type Output = V;

    /// The value at the place `index`, which the map must have.
    fn index(&self, index: usize) -> (value: &V)
        ensures
            *value == self@[index as int].1,
    {
        self.get_index(index).unwrap().1
    }
}

impl<V, const C: usize> vstd::std_specs::core::IndexSpecImpl<usize> for SmallMap<V, C> {
    open spec fn index_req(&self, index: &usize) -> bool {
        *index < self@.len()
    }
}

impl<V, const C: usize> Index<&usize> for SmallMap<V, C> {
    type Output = V;

    /// The value of `key`, which the map must hold.
    fn index(&self, key: &usize) -> (value: &V)
        ensures
            *value == self@[position(self@, *key).unwrap()].1,
    {
        self.get(*key).unwrap()
    }
}

impl<V, const C: usize> vstd::std_specs::core::IndexSpecImpl<&usize> for SmallMap<V, C> {
    open spec fn index_req(&self, key: &&usize) -> bool {
        self.wf() && position(self@, **key) is Some
    }
}

impl<V, const C: usize> SmallMap<V, C> {
    /// The value at the place `index`, which the map must have, mutable.
    pub fn index_mut(&mut self, index: usize) -> (value: &mut V)
        requires
            old(self).wf(),
            index < old(self)@.len(),
        ensures
            final(self).wf(),
            *value == old(self)@[index as int].1,
            final(self)@ == old(self)@.update(
                index as int,
                (old(self)@[index as int].0, *final(value)),
            ),
    {
        self.get_index_mut(index).unwrap().1
    }
}

} // verus!
