//! The mathematical model of an insertion-ordered map: a sequence of key-value pairs in
//! which no key occurs twice, and what insertion and removal do to it.
use vstd::prelude::*;

verus! {

/// The keys of `entries`, in order.
pub open spec fn keys<V>(entries: Seq<(usize, V)>) -> Seq<usize> {
    Seq::new(entries.len(), |i: int| entries[i].0)
}

/// No key occurs twice in `entries`.
pub open spec fn distinct_keys<V>(entries: Seq<(usize, V)>) -> bool {
    forall|i: int, j: int| 0 <= i < j < entries.len() ==> entries[i].0 != entries[j].0
}

/// The first position at which `key` occurs in `entries`, if it occurs.
pub open spec fn position<V>(entries: Seq<(usize, V)>, key: usize) -> Option<int>
    decreases entries.len(),
{
    if entries.len() == 0 {
        None
    } else {
        match position(entries.drop_last(), key) {
            Some(i) => Some(i),
            None => if entries.last().0 == key {
                Some(entries.len() - 1)
            } else {
                None
            },
        }
    }
}

/// The place `i` as a mathematical integer.
pub open spec fn place(i: usize) -> int {
    i as int
}

/// `b` holds the keys of `a` in the same order, and place by place a clone of its value.
pub open spec fn entries_cloned<V: Clone>(a: Seq<(usize, V)>, b: Seq<(usize, V)>) -> bool {
    &&& a.len() == b.len()
    &&& forall|i: int| 0 <= i < a.len() ==> a[i].0 == #[trigger] b[i].0 && cloned(a[i].1, b[i].1)
}

/// A sequence whose values are clones of another's has its keys.
pub proof fn lemma_entries_cloned_keys<V: Clone>(a: Seq<(usize, V)>, b: Seq<(usize, V)>)
    requires
        entries_cloned(a, b),
    ensures
        keys(a) == keys(b),
        distinct_keys(a) ==> distinct_keys(b),
{
    assert(keys(a) =~= keys(b));
}

/// `entries` after `key` is given `value`: in place where the key occurs, at the end where
/// it does not.
pub open spec fn inserted<V>(entries: Seq<(usize, V)>, key: usize, value: V) -> Seq<(usize, V)> {
    match position(entries, key) {
        Some(i) => entries.update(i, (key, value)),
        None => entries.push((key, value)),
    }
}

/// `entries` after the pair at `i` is removed by moving the last pair into its place.
pub open spec fn swap_removed<V>(entries: Seq<(usize, V)>, i: int) -> Seq<(usize, V)> {
    entries.update(i, entries.last()).drop_last()
}

/// `entries` after `key` is removed with [`swap_removed`], where it occurs.
pub open spec fn removed<V>(entries: Seq<(usize, V)>, key: usize) -> Seq<(usize, V)> {
    match position(entries, key) {
        Some(i) => swap_removed(entries, i),
        None => entries,
    }
}

/// `entries` after the pairs of `pairs` are inserted one after the other.
pub open spec fn inserted_all<V>(entries: Seq<(usize, V)>, pairs: Seq<(usize, V)>) -> Seq<
    (usize, V),
>
    decreases pairs.len(),
{
    if pairs.len() == 0 {
        entries
    } else {
        inserted(inserted_all(entries, pairs.drop_last()), pairs.last().0, pairs.last().1)
    }
}

/// What [`position`] finds: the key is there and at no earlier place; or it is nowhere.
pub proof fn lemma_position<V>(entries: Seq<(usize, V)>, key: usize)
    ensures
        match position(entries, key) {
            Some(i) => {
                &&& 0 <= i < entries.len()
                &&& entries[i].0 == key
                &&& forall|j: int| 0 <= j < i ==> entries[j].0 != key
            },
            None => forall|j: int| 0 <= j < entries.len() ==> entries[j].0 != key,
        },
    decreases entries.len(),
{
    if entries.len() > 0 {
        let front = entries.drop_last();
        lemma_position(front, key);
        match position(front, key) {
            Some(i) => {
                assert(front[i] == entries[i]);
                assert forall|j: int| 0 <= j < i implies entries[j].0 != key by {
                    assert(front[j] == entries[j]);
                }
            },
            None => {
                assert forall|j: int| 0 <= j < entries.len() - 1 implies entries[j].0 != key by {
                    assert(front[j] == entries[j]);
                }
            },
        }
    }
}

/// The first place at which a key stands is its position.
pub proof fn lemma_position_is<V>(entries: Seq<(usize, V)>, key: usize, i: int)
    requires
        0 <= i < entries.len(),
        entries[i].0 == key,
        forall|j: int| 0 <= j < i ==> entries[j].0 != key,
    ensures
        position(entries, key) == Some(i),
{
    lemma_position(entries, key);
}

/// A key that stands nowhere has no position.
pub proof fn lemma_position_none<V>(entries: Seq<(usize, V)>, key: usize)
    requires
        forall|j: int| 0 <= j < entries.len() ==> entries[j].0 != key,
    ensures
        position(entries, key) is None,
{
    lemma_position(entries, key);
}

/// Among distinct keys, the place at which a key stands is its position.
pub proof fn lemma_position_distinct<V>(entries: Seq<(usize, V)>, i: int)
    requires
        distinct_keys(entries),
        0 <= i < entries.len(),
    ensures
        position(entries, entries[i].0) == Some(i),
{
    lemma_position(entries, entries[i].0);
}

/// Insertion keeps the keys distinct, and changes the length by one exactly when the key
/// is new.
pub proof fn lemma_inserted<V>(entries: Seq<(usize, V)>, key: usize, value: V)
    requires
        distinct_keys(entries),
    ensures
        distinct_keys(inserted(entries, key, value)),
        keys(inserted(entries, key, value)) == if position(entries, key) is Some {
            keys(entries)
        } else {
            keys(entries).push(key)
        },
        inserted(entries, key, value).len() == if position(entries, key) is Some {
            entries.len()
        } else {
            entries.len() + 1
        },
        position(inserted(entries, key, value), key) == match position(entries, key) {
            Some(i) => Some(i),
            None => Some(entries.len() as int),
        },
{
    lemma_position(entries, key);
    let after = inserted(entries, key, value);
    match position(entries, key) {
        Some(i) => {
            assert(keys(after) =~= keys(entries));
            lemma_position_is(after, key, i);
        },
        None => {
            assert(keys(after) =~= keys(entries).push(key));
            lemma_position_is(after, key, entries.len() as int);
        },
    }
}

/// Giving the entry at `i` another value leaves the keys, and so their being distinct, as
/// they are.
pub proof fn lemma_same_keys_updated<V>(entries: Seq<(usize, V)>, i: int)
    requires
        0 <= i < entries.len(),
    ensures
        forall|entry: (usize, V)|
            entry.0 == entries[i].0 ==> keys(#[trigger] entries.update(i, entry)) == keys(
                entries,
            ),
        forall|entry: (usize, V)|
            entry.0 == entries[i].0 && distinct_keys(entries) ==> distinct_keys(
                #[trigger] entries.update(i, entry),
            ),
{
    assert forall|entry: (usize, V)| entry.0 == entries[i].0 implies keys(
        #[trigger] entries.update(i, entry),
    ) == keys(entries) by {
        assert(keys(entries.update(i, entry)) =~= keys(entries));
    }
}

/// Removal by swapping keeps the keys distinct and makes the sequence one shorter.
pub proof fn lemma_swap_removed<V>(entries: Seq<(usize, V)>, i: int)
    requires
        distinct_keys(entries),
        0 <= i < entries.len(),
    ensures
        distinct_keys(swap_removed(entries, i)),
        swap_removed(entries, i).len() == entries.len() - 1,
        position(swap_removed(entries, i), entries[i].0) is None,
        keys(swap_removed(entries, i)) == keys(entries).update(i, keys(entries).last()).drop_last(),
{
    let after = swap_removed(entries, i);
    assert(keys(after) =~= keys(entries).update(i, keys(entries).last()).drop_last());
    assert forall|j: int| 0 <= j < after.len() implies after[j].0 != entries[i].0 by {
        if j == i {
            assert(after[j] == entries.last());
        } else {
            assert(after[j] == entries[j]);
        }
    }
    lemma_position_none(after, entries[i].0);
}

/// Inserting pairs whose keys are distinct into nothing gives those pairs, in their order.
pub proof fn lemma_inserted_all_distinct<V>(pairs: Seq<(usize, V)>)
    requires
        distinct_keys(pairs),
    ensures
        inserted_all(Seq::<(usize, V)>::empty(), pairs) == pairs,
    decreases pairs.len(),
{
    if pairs.len() > 0 {
        let front = pairs.drop_last();
        lemma_inserted_all_distinct(front);
        lemma_position_none(front, pairs.last().0);
        assert(front.push(pairs.last()) =~= pairs);
    }
}

/// The keys of `entries` tell whether and where a key has its position.
pub proof fn lemma_position_in_keys<V>(entries: Seq<(usize, V)>, key: usize)
    ensures
        match position(entries, key) {
            Some(i) => 0 <= i < entries.len() && keys(entries)[i] == key,
            None => !keys(entries).contains(key),
        },
        position(entries, key) is Some <==> keys(entries).contains(key),
{
    lemma_position(entries, key);
    match position(entries, key) {
        Some(i) => {
            assert(keys(entries)[i] == key);
        },
        None => {
            if keys(entries).contains(key) {
                let j = choose|j: int| 0 <= j < keys(entries).len() && keys(entries)[j] == key;
                assert(entries[j].0 == key);
            }
        },
    }
}

/// The keys of entries are distinct exactly when the sequence of the keys has no
/// duplicates.
pub proof fn lemma_distinct_keys_no_duplicates<V>(entries: Seq<(usize, V)>)
    ensures
        distinct_keys(entries) <==> keys(entries).no_duplicates(),
{
    if distinct_keys(entries) {
        assert forall|i: int, j: int|
            0 <= i < keys(entries).len() && 0 <= j < keys(entries).len() && i != j implies keys(
            entries,
        )[i] != keys(entries)[j] by {
            if i < j {
                assert(entries[i].0 != entries[j].0);
            } else {
                assert(entries[j].0 != entries[i].0);
            }
        }
    }
    if keys(entries).no_duplicates() {
        assert forall|i: int, j: int| 0 <= i < j < entries.len() implies entries[i].0
            != entries[j].0 by {
            assert(keys(entries)[i] != keys(entries)[j]);
        }
    }
}

} // verus!
