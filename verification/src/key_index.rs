//! The hashed index of the keys: an [`indexmap::IndexMap`] from `usize` keys to nothing,
//! which keeps its keys in the order in which they came and finds a key's place in that
//! order in constant time on average.
//!
//! Nothing in this file is proved. Each function states what the `indexmap` crate
//! documents of the method that it calls.
use indexmap::IndexMap;
use std::collections::hash_map::RandomState;
use vstd::prelude::*;

verus! {

/// `indexmap::IndexMap`, taken as it is: nothing inside it is seen here.
#[verifier::external_type_specification]
#[verifier::external_body]
#[verifier::reject_recursive_types(K)]
#[verifier::reject_recursive_types(V)]
#[verifier::reject_recursive_types(S)]
pub struct ExIndexMap<K, V, S>(IndexMap<K, V, S>);

/// The keys that an index holds, in its order: the order in which they came, but for what
/// removals moved. The order does not depend on how the keys hash.
pub uninterp spec fn key_order(index: IndexMap<usize, (), RandomState>) -> Seq<usize>;

/// `IndexMap::new`: a new index holds no key.
#[verifier::external_body]
pub(crate) fn index_new() -> (index: IndexMap<usize, (), RandomState>)
    ensures
        key_order(index) == Seq::<usize>::empty(),
{
    IndexMap::new()
}

/// `IndexMap::clone`: the clone holds the same keys in the same order.
#[verifier::external_body]
pub(crate) fn index_clone(index: &IndexMap<usize, (), RandomState>) -> (r: IndexMap<
    usize,
    (),
    RandomState,
>)
    ensures
        key_order(r) == key_order(*index),
{
    index.clone()
}

/// `IndexMap::get_index_of`: the place of `key` in the order, or `None` where the index
/// does not hold it.
#[verifier::external_body]
pub(crate) fn index_position(index: &IndexMap<usize, (), RandomState>, key: usize) -> (place:
    Option<usize>)
    ensures
        match place {
            Some(i) => i < key_order(*index).len() && key_order(*index)[i as int] == key,
            None => !key_order(*index).contains(key),
        },
{
    index.get_index_of(&key)
}

/// `IndexMap::insert_full`: a key that the index holds keeps its place, which is returned
/// with `Some`; a new key goes to the end, and its place is returned with `None`.
#[verifier::external_body]
pub(crate) fn index_insert(index: &mut IndexMap<usize, (), RandomState>, key: usize) -> (r: (
    usize,
    Option<()>,
))
    ensures
        key_order(*old(index)).contains(key) ==> {
            &&& r.0 < key_order(*old(index)).len()
            &&& key_order(*old(index))[r.0 as int] == key
            &&& r.1 is Some
            &&& key_order(*final(index)) == key_order(*old(index))
        },
        !key_order(*old(index)).contains(key) ==> {
            &&& r.0 == key_order(*old(index)).len()
            &&& r.1 is None
            &&& key_order(*final(index)) == key_order(*old(index)).push(key)
        },
{
    index.insert_full(key, ())
}

/// `IndexMap::swap_remove_full`: a key that the index holds is removed by putting the last
/// key in its place, and its place and the key are returned; an index that does not hold
/// the key stays as it is.
#[verifier::external_body]
pub(crate) fn index_swap_remove(index: &mut IndexMap<usize, (), RandomState>, key: usize) -> (r:
    Option<(usize, usize, ())>)
    ensures
        match r {
            Some((i, k, _)) => {
                &&& i < key_order(*old(index)).len()
                &&& key_order(*old(index))[i as int] == key
                &&& k == key
                &&& key_order(*final(index)) == key_order(*old(index)).update(
                    i as int,
                    key_order(*old(index)).last(),
                ).drop_last()
            },
            None => {
                &&& !key_order(*old(index)).contains(key)
                &&& key_order(*final(index)) == key_order(*old(index))
            },
        },
{
    index.swap_remove_full(&key)
}

} // verus!
