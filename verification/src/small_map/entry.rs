//! [`Entry`] is a handle on one key of a [`SmallMap`]: the place of a key that the map
//! holds, or a key that it does not hold yet.
use vstd::prelude::*;

use crate::entries::lemma_inserted;
use crate::entries::position;
use crate::small_map::SmallMap;

verus! {

/// The entry of a key in a [`SmallMap`], for insertion and in-place manipulation.
///
/// Making an entry does not change the map.
pub enum Entry<'a, V, const C: usize> {
    /// The map holds the key, at this index.
    Occupied(&'a mut SmallMap<V, C>, usize),
    /// The map does not hold this key.
    Vacant(&'a mut SmallMap<V, C>, usize),
}

impl<'a, V, const C: usize> Entry<'a, V, C> {
    /// The map that the entry borrows.
    pub open spec fn map(self) -> &'a mut SmallMap<V, C> {
        match self {
            Entry::Occupied(map, _) => map,
            Entry::Vacant(map, _) => map,
        }
    }

    /// The map is well-formed; an occupied entry's index is the place of an entry, and
    /// the map does not hold the key of a vacant one.
    pub open spec fn wf(self) -> bool {
        match self {
            Entry::Occupied(map, index) => map.wf() && index < map@.len(),
            Entry::Vacant(map, key) => map.wf() && position(map@, key) is None,
        }
    }

    /// Modifies the entry if it is occupied. Otherwise this is a no-op.
    pub fn and_modify<F>(self, f: F) -> (r: Self) where F: FnOnce(&mut V)
        requires
            self.wf(),
            match self {
                Entry::Occupied(map, index) => forall|value: &mut V|
                    *value == map@[index as int].1 ==> f.requires((value,)),
                Entry::Vacant(_, _) => true,
            },
        ensures
            r.wf(),
            *final(r.map()) == *final(self.map()),
            match self {
                Entry::Occupied(map, index) => {
                    &&& r matches Entry::Occupied(_, same) && same == index
                    &&& exists|value: &mut V|
                        {
                            &&& *value == map@[index as int].1
                            &&& f.ensures((value,), ())
                            &&& r.map()@ == map@.update(
                                index as int,
                                (map@[index as int].0, *final(value)),
                            )
                        }
                },
                Entry::Vacant(map, key) => {
                    &&& r matches Entry::Vacant(_, same) && same == key
                    &&& *r.map() == *map
                },
            },
    {
        match self {
            Entry::Occupied(map, index) => {
                let (_, value) = map.get_index_mut(index).unwrap();
                f(value);
                Entry::Occupied(map, index)
            },
            Entry::Vacant(map, key) => Entry::Vacant(map, key),
        }
    }

    /// Inserts the given default value in the entry if it is vacant and returns
    /// a mutable reference to it. Otherwise a mutable reference to an
    /// already existent value is returned.
    pub fn or_insert(self, default: V) -> (value: &'a mut V)
        requires
            self.wf(),
        ensures
            final(self.map()).wf(),
            match self {
                Entry::Occupied(map, index) => {
                    &&& *value == map@[index as int].1
                    &&& final(map)@ == map@.update(
                        index as int,
                        (map@[index as int].0, *final(value)),
                    )
                },
                Entry::Vacant(map, key) => {
                    &&& *value == default
                    &&& final(map)@ == map@.push((key, *final(value)))
                },
            },
    {
        match self {
            Entry::Vacant(map, key) => {
                proof {
                    map.lemma_wf();
                    lemma_inserted(map@, key, default);
                }
                let ghost before = map@;
                let (index, _) = map.insert_full(key, default);
                assert(index == before.len());
                assert forall|last: V|
                    before.push((key, default)).update(index as int, (key, last)) == before.push(
                        (key, last),
                    ) by {
                    assert(before.push((key, default)).update(index as int, (key, last))
                        =~= before.push((key, last)));
                }
                let (_, value) = map.get_index_mut(index).unwrap();
                value
            },
            Entry::Occupied(map, index) => {
                let (_, value) = map.get_index_mut(index).unwrap();
                value
            },
        }
    }

    /// Inserts the value that `f` makes in the entry if it is vacant and returns a mutable
    /// reference to it. Otherwise a mutable reference to an already existent value is
    /// returned, and `f` is not called.
    pub fn or_insert_with<F>(self, f: F) -> (value: &'a mut V) where F: FnOnce() -> V
        requires
            self.wf(),
            self is Vacant ==> f.requires(()),
        ensures
            final(self.map()).wf(),
            match self {
                Entry::Occupied(map, index) => {
                    &&& *value == map@[index as int].1
                    &&& final(map)@ == map@.update(
                        index as int,
                        (map@[index as int].0, *final(value)),
                    )
                },
                Entry::Vacant(map, key) => {
                    &&& f.ensures((), *value)
                    &&& final(map)@ == map@.push((key, *final(value)))
                },
            },
    {
        match self {
            Entry::Vacant(map, key) => {
                let made = f();
                Entry::Vacant(map, key).or_insert(made)
            },
            Entry::Occupied(map, index) => {
                let (_, value) = map.get_index_mut(index).unwrap();
                value
            },
        }
    }

    /// Ensures a value is in the entry by inserting the default value if empty,
    /// and returns a mutable reference to the value in the entry.
    pub fn or_default(self) -> (value: &'a mut V) where V: Default
        requires
            self.wf(),
        ensures
            final(self.map()).wf(),
            match self {
                Entry::Occupied(map, index) => {
                    &&& *value == map@[index as int].1
                    &&& final(map)@ == map@.update(
                        index as int,
                        (map@[index as int].0, *final(value)),
                    )
                },
                Entry::Vacant(map, key) => {
                    &&& V::default.ensures((), *value)
                    &&& final(map)@ == map@.push((key, *final(value)))
                },
            },
    {
        match self {
            Entry::Vacant(map, key) => {
                let made = V::default();
                Entry::Vacant(map, key).or_insert(made)
            },
            Entry::Occupied(map, index) => {
                let (_, value) = map.get_index_mut(index).unwrap();
                value
            },
        }
    }
}

} // verus!
