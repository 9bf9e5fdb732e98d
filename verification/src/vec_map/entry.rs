//! [`Entry`] is a handle on one key of a [`VecMap`]: the value of a key that the map holds,
//! or a key that it does not hold yet.
use vstd::prelude::*;

use crate::vec_map::IndexKey;
use crate::vec_map::slots_inserted;
use crate::vec_map::VecMap;

verus! {

/// Entry for an existing key-value pair or a vacant location to insert one.
pub enum Entry<'a, K: IndexKey, V> {
    /// Vacant slot (i.e. the key does not exist in the map).
    Vacant(K, &'a mut VecMap<K, V>),
    /// Occupied slot.
    Occupied(&'a mut V),
}

impl<'a, K: IndexKey, V> Entry<'a, K, V> {
    /// The map of a vacant entry is well-formed and does not hold the key.
    pub open spec fn wf(self) -> bool {
        match self {
            Entry::Occupied(_) => true,
            Entry::Vacant(key, map) => map.wf() && !(key.index_spec() < map@.len()
                && map@[key.index_spec() as int] is Some),
        }
    }

    /// Inserts the given default value in the entry if it is vacant.
    ///
    /// Returns a mutable reference to the existing value if it is occupied, or
    /// a mutable reference to the newly added value if it is vacant.
    pub fn or_insert(self, default: V) -> (value: &'a mut V)
        requires
            self.wf(),
            self matches Entry::Vacant(key, _) ==> key.index_spec() < usize::MAX,
        ensures
            match self {
                Entry::Occupied(entry) => *value == *entry && *final(value) == *final(entry),
                Entry::Vacant(key, map) => {
                    &&& *value == default
                    &&& final(map)@ == slots_inserted(map@, key.index_spec(), *final(value))
                    &&& final(map).wf()
                },
            },
    {
        match self {
            Entry::Occupied(entry) => entry,
            Entry::Vacant(key, map) => {
                let ghost before = map@;
                let _ = map.insert(key, default);
                assert forall|last: V|
                    slots_inserted(before, key.index_spec(), default).update(
                        key.index_spec() as int,
                        Some(last),
                    ) == slots_inserted(before, key.index_spec(), last) by {
                    assert(slots_inserted(before, key.index_spec(), default).update(
                        key.index_spec() as int,
                        Some(last),
                    ) =~= slots_inserted(before, key.index_spec(), last));
                }
                map.get_mut(key).unwrap()
            },
        }
    }

    /// Inserts the result of the `creator` function in the entry if it is
    /// vacant.
    ///
    /// Returns a mutable reference to the existing value if it is occupied, or
    /// a mutable reference to the newly added value if it is vacant.
    pub fn or_insert_with<F>(self, creator: F) -> (value: &'a mut V) where F: FnOnce() -> V
        requires
            self.wf(),
            self matches Entry::Vacant(key, _) ==> key.index_spec() < usize::MAX && creator.requires(
                (),
            ),
        ensures
            match self {
                Entry::Occupied(entry) => *value == *entry && *final(value) == *final(entry),
                Entry::Vacant(key, map) => {
                    &&& creator.ensures((), *value)
                    &&& final(map)@ == slots_inserted(map@, key.index_spec(), *final(value))
                    &&& final(map).wf()
                },
            },
    {
        match self {
            Entry::Occupied(entry) => entry,
            Entry::Vacant(key, map) => {
                let made = creator();
                Entry::Vacant(key, map).or_insert(made)
            },
        }
    }

    /// Inserts the default value in the entry if it is vacant.
    ///
    /// Returns a mutable reference to the existing value if it is occupied, or
    /// a mutable reference to the newly added value if it is vacant.
    pub fn or_default(self) -> (value: &'a mut V) where V: Default
        requires
            self.wf(),
            self matches Entry::Vacant(key, _) ==> key.index_spec() < usize::MAX,
        ensures
            match self {
                Entry::Occupied(entry) => *value == *entry && *final(value) == *final(entry),
                Entry::Vacant(key, map) => {
                    &&& V::default.ensures((), *value)
                    &&& final(map)@ == slots_inserted(map@, key.index_spec(), *final(value))
                    &&& final(map).wf()
                },
            },
    {
        match self {
            Entry::Occupied(entry) => entry,
            Entry::Vacant(key, map) => {
                let made = V::default();
                Entry::Vacant(key, map).or_insert(made)
            },
        }
    }

    /// Modifies the entry if it is occupied.
    pub fn and_modify<F>(self, f: F) -> (r: Self) where F: FnOnce(&mut V)
        requires
            self.wf(),
            match self {
                Entry::Occupied(entry) => forall|value: &mut V|
                    *value == *entry ==> f.requires((value,)),
                Entry::Vacant(_, _) => true,
            },
        ensures
            r.wf(),
            match self {
                Entry::Occupied(entry) => {
                    &&& r matches Entry::Occupied(after) && *final(after) == *final(entry)
                        && exists|value: &mut V|
                        {
                            &&& *value == *entry
                            &&& f.ensures((value,), ())
                            &&& *after == *final(value)
                        }
                },
                Entry::Vacant(key, map) => {
                    &&& r matches Entry::Vacant(same, after) && same == key && *after == *map
                        && *final(after) == *final(map)
                },
            },
    {
        match self {
            Entry::Occupied(o) => {
                f(o);
                Entry::Occupied(o)
            },
            Entry::Vacant(key, map) => Entry::Vacant(key, map),
        }
    }
}

} // verus!
