//! Indexing a vector map: `map[key]` is the value of a key that the map holds.
use std::ops::Index;
use vstd::prelude::*;

use crate::vec_map::IndexKey;
use crate::vec_map::VecMap;

verus! {

impl<K: IndexKey, V> Index<K> for VecMap<K, V> {
    type Output = V;

    /// The value of `key`, which the map must hold.
    fn index(&self, key: K) -> (value: &V)
        ensures
            self@[key.index_spec() as int] == Some(*value),
    {
        let index = key.as_index();
        self.data[index].as_ref().unwrap()
    }
}

impl<K: IndexKey, V> vstd::std_specs::core::IndexSpecImpl<K> for VecMap<K, V> {
    open spec fn index_req(&self, key: &K) -> bool {
        key.index_spec() < self@.len() && self@[key.index_spec() as int] is Some
    }
}

} // verus!
