//! What holds of a [`SmallMap`] across several operations, proved from the contracts of the
//! operations.
use std::cmp::Ordering;
use vstd::prelude::*;
use vstd::std_specs::cmp::PartialEqSpec;

use crate::entries::distinct_keys;
use crate::entries::inserted;
use crate::entries::inserted_all;
use crate::entries::keys;
use crate::entries::lemma_inserted;
use crate::entries::lemma_inserted_all_distinct;
use crate::entries::lemma_position;
use crate::entries::lemma_swap_removed;
use crate::entries::place;
use crate::entries::position;
use crate::entries::removed;
use crate::ordered_map::OrderedMap;
use crate::small_map::answers;
use crate::small_map::eq::entries_eq;
use crate::small_map::search_outcome;
use crate::small_map::SmallMap;

verus! {

/// Maps that hold the same entries have the same length and the same representation,
/// however they came to hold them.
pub proof fn law_same_entries_same_shape<V, const C: usize>(a: SmallMap<V, C>, b: SmallMap<V, C>)
    requires
        a.wf(),
        b.wf(),
        a@ == b@,
    ensures
        a@.len() == b@.len(),
        a.inline() == b.inline(),
{
    a.lemma_wf();
    b.lemma_wf();
}

/// A map that is stored inline holds at most `C` entries, and a removal that leaves a map
/// with at most `C` entries leaves it stored inline.
pub proof fn law_removal_moves_inline<V, const C: usize>(
    before: SmallMap<V, C>,
    key: usize,
    after: SmallMap<V, C>,
)
    requires
        before.wf(),
        after.wf(),
        after@ == removed(before@, key),
    ensures
        before.inline() ==> before@.len() <= C,
        after@.len() <= C ==> after.inline(),
        before.inline() ==> after.inline(),
{
    before.lemma_wf();
    after.lemma_wf();
    lemma_position(before@, key);
    if position(before@, key) is Some {
        lemma_swap_removed(before@, position(before@, key).unwrap());
    }
}

/// Inserting the same key and value a second time changes nothing: not the entries, so
/// not the length, and not the index of the key.
pub proof fn law_insert_again<V, const C: usize>(
    before: SmallMap<V, C>,
    key: usize,
    value: V,
    once: SmallMap<V, C>,
    twice: SmallMap<V, C>,
)
    requires
        before.wf(),
        once@ == inserted(before@, key, value),
        twice@ == inserted(once@, key, value),
    ensures
        twice@ == once@,
        twice@.len() == once@.len(),
        position(twice@, key) == position(once@, key),
{
    before.lemma_wf();
    lemma_inserted(before@, key, value);
    lemma_position(once@, key);
    assert(once@.update(position(once@, key).unwrap(), (key, value)) =~= once@);
}

/// A map made from an ordered map holds the entries of that map, in their order, whether
/// they fit inline or not.
pub proof fn law_from_map_keeps_entries<V, const C: usize>(map: OrderedMap<V>, made: SmallMap<V, C>)
    requires
        map.wf(),
        made.wf(),
        made@ == map@,
    ensures
        made@ == map@,
        made.inline() == (map@.len() <= C),
{
    made.lemma_wf();
}

/// Inserting pairs with distinct keys into an empty map keeps them in the order in which
/// they came, also where the last of them moves the map to the heap.
pub proof fn law_inserts_keep_order<V, const C: usize>(pairs: Seq<(usize, V)>, map: SmallMap<V, C>)
    requires
        distinct_keys(pairs),
        map.wf(),
        map@ == inserted_all(Seq::<(usize, V)>::empty(), pairs),
    ensures
        map@ == pairs,
        keys(map@) == keys(pairs),
        pairs.len() == C + 1 ==> !map.inline(),
{
    lemma_inserted_all_distinct(pairs);
    map.lemma_wf();
}

/// Removing a key from a map of `C + 1` entries leaves a map of `C` entries that is stored
/// inline.
pub proof fn law_removal_restores_inline<V, const C: usize>(
    before: SmallMap<V, C>,
    key: usize,
    after: SmallMap<V, C>,
)
    requires
        before.wf(),
        before@.len() == C + 1,
        position(before@, key) is Some,
        after.wf(),
        after@ == removed(before@, key),
    ensures
        !before.inline(),
        after.inline(),
        after@.len() == C,
{
    before.lemma_wf();
    after.lemma_wf();
    lemma_position(before@, key);
    lemma_swap_removed(before@, position(before@, key).unwrap());
}

/// A map built by inserting pairs one by one and a map built from the same pairs at once
/// hold the same entries; they are equal under `==` where the values' `==` takes each
/// value for equal to itself.
pub proof fn law_insert_equals_bulk<V: PartialEq, const C: usize>(
    pairs: Seq<(usize, V)>,
    one_by_one: SmallMap<V, C>,
    at_once: SmallMap<V, C>,
)
    requires
        one_by_one@ == inserted_all(Seq::<(usize, V)>::empty(), pairs),
        at_once@ == inserted_all(Seq::<(usize, V)>::empty(), pairs),
    ensures
        one_by_one@ == at_once@,
        (forall|value: V| #[trigger] value.eq_spec(&value)) ==> one_by_one.eq_spec(&at_once),
{
    if forall|value: V| #[trigger] value.eq_spec(&value) {
        let a = one_by_one@;
        assert forall|i: int| #![trigger a[i]] 0 <= i < a.len() implies a[i].1.eq_spec(&a[i].1) by {
            let value = a[i].1;
            assert(value.eq_spec(&value));
        }
        assert(entries_eq(one_by_one@, at_once@));
    }
}

/// The comparator `f` answers for the entry at each place what `decide` says, and nothing
/// else.
pub open spec fn decided_by<'a, V: 'a, F: Fn((&'a usize, &'a V)) -> Ordering>(
    f: F,
    entries: Seq<(usize, V)>,
    decide: spec_fn(int) -> Ordering,
) -> bool {
    forall|i: int, order: Ordering|
        0 <= i < entries.len() && #[trigger] answers(f, entries, i, order) ==> order == decide(i)
}

/// The answers of `decide` on the first `n` places are sorted: first `Less`, then `Equal`,
/// then `Greater`.
pub open spec fn sorted_answers(decide: spec_fn(int) -> Ordering, n: nat) -> bool {
    forall|i: int, j: int|
        0 <= i < j < n ==> {
            &&& #[trigger] decide(j) == Ordering::Less ==> #[trigger] decide(i) == Ordering::Less
            &&& decide(i) == Ordering::Greater ==> decide(j) == Ordering::Greater
        }
}

/// On entries that are sorted for the comparator, a binary search finds an entry that the
/// comparator takes for equal wherever there is one, and else gives the one place at which
/// such an entry could be inserted: all entries before it are less, all from it on are
/// greater. The outcome depends on the entries alone, not on how the map stores them.
pub proof fn law_search_on_sorted<'a, V: 'a, F: Fn((&'a usize, &'a V)) -> Ordering>(
    f: F,
    entries: Seq<(usize, V)>,
    decide: spec_fn(int) -> Ordering,
    r: Result<usize, usize>,
)
    requires
        decided_by(f, entries, decide),
        sorted_answers(decide, entries.len()),
        search_outcome(f, entries, r),
    ensures
        match r {
            Ok(i) => i < entries.len() && decide(place(i)) == Ordering::Equal,
            Err(i) => {
                &&& i <= entries.len()
                &&& forall|j: int| 0 <= j < i ==> #[trigger] decide(j) == Ordering::Less
                &&& forall|j: int|
                    i <= j < entries.len() ==> #[trigger] decide(j) == Ordering::Greater
            },
        },
        forall|e: int|
            0 <= e < entries.len() && #[trigger] decide(e) == Ordering::Equal && (forall|j: int|
                0 <= j < entries.len() && j != e ==> #[trigger] decide(j) != Ordering::Equal) ==> (r matches Ok(
                i,
            ) && place(i) == e),
{
    match r {
        Ok(i) => {
            assert(answers(f, entries, place(i), Ordering::Equal));
        },
        Err(i) => {
            if i > 0 {
                assert(answers(f, entries, place(i) - 1, Ordering::Less));
                assert(decide(place(i) - 1) == Ordering::Less);
            }
            if i < entries.len() {
                assert(answers(f, entries, place(i), Ordering::Greater));
                assert(decide(place(i)) == Ordering::Greater);
            }
        },
    }
}

} // verus!
