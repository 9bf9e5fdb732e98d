//! [`SmallSet`] is a set that keeps up to `C` values in a short list and moves all of them
//! to a hashed map when there are more. It is a [`SmallMap`] whose values are `()`.
use vstd::prelude::*;

pub mod algebra;
pub mod eq;
pub mod iter;

pub use algebra::Difference;
pub use algebra::Intersection;
pub use algebra::SymmetricDifference;
pub use algebra::Union;
pub use iter::IntoIter;
pub use iter::Iter;

use crate::small_set::algebra::difference_of;
use crate::small_set::algebra::intersection_of;
use crate::small_set::algebra::symmetric_difference_of;
use crate::small_set::algebra::union_of;

use crate::debug_text::append_value;
use crate::debug_text::close_brace;
use crate::debug_text::debug_piece;
use crate::debug_text::open_brace;
use crate::debug_text::set_layout;
use crate::debug_text::values_layout;
use crate::entries::keys;
use crate::entries::lemma_distinct_keys_no_duplicates;
use crate::entries::lemma_entries_cloned_keys;
use crate::entries::lemma_inserted;
use crate::entries::lemma_position;
use crate::entries::lemma_position_in_keys;
use crate::entries::lemma_swap_removed;
use crate::entries::position;
use crate::small_map::SmallMap;

verus! {

/// A set-like container that can store a specified number of elements inline.
///
/// `SmallSet` behaves like an insertion-ordered set. It keeps a limited number of values
/// in a list that is searched from the front. If the data exceeds the limit `C`,
/// `SmallSet` moves _all_ its data over to a hashed map, and moves it back when a removal
/// leaves `C` values or fewer.
///
/// The set is viewed as the sequence of its values, in their order.
pub struct SmallSet<const C: usize> {
    data: SmallMap<(), C>,
}

impl<const C: usize> View for SmallSet<C> {
    type V = Seq<usize>;

    closed spec fn view(&self) -> Seq<usize> {
        keys(self.data@)
    }
}

/// `values` after `value` left it, the last value taking its place.
pub open spec fn without(values: Seq<usize>, value: usize) -> Seq<usize> {
    if values.contains(value) {
        values.update(values.index_of(value), values.last()).drop_last()
    } else {
        values
    }
}

/// `values` with `value` at the end, unless it holds `value` already.
pub open spec fn with(values: Seq<usize>, value: usize) -> Seq<usize> {
    if values.contains(value) {
        values
    } else {
        values.push(value)
    }
}

/// `values` after each value of `more` is added with [`with`], one after the other.
pub open spec fn with_all(values: Seq<usize>, more: Seq<usize>) -> Seq<usize>
    decreases more.len(),
{
    if more.len() == 0 {
        values
    } else {
        with(with_all(values, more.drop_last()), more.last())
    }
}

/// In a sequence without duplicates, the place at which a value stands is the one that
/// `index_of` gives.
pub proof fn lemma_index_of(values: Seq<usize>, i: int)
    requires
        values.no_duplicates(),
        0 <= i < values.len(),
    ensures
        values.index_of(values[i]) == i,
        values.contains(values[i]),
{
    let j = values.index_of(values[i]);
    assert(values[j] == values[i]);
}

impl<const C: usize> SmallSet<C> {
    /// The map that holds the values is well-formed.
    pub closed spec fn wf(&self) -> bool {
        self.data.wf()
    }

    /// Whether the values are in the list, and not in the hashed map.
    pub closed spec fn inline(&self) -> bool {
        self.data.inline()
    }

    /// The representation follows from the number of values, and no value occurs twice.
    pub proof fn lemma_wf(&self)
        requires
            self.wf(),
        ensures
            self.inline() == (self@.len() <= C),
            self@.no_duplicates(),
    {
        self.data.lemma_wf();
        lemma_distinct_keys_no_duplicates(self.data@);
    }

    /// Create a new set.
    pub fn new() -> (r: Self)
        requires
            C > 0,
        ensures
            r.wf(),
            r@ == Seq::<usize>::empty(),
    {
        let r = SmallSet { data: SmallMap::new() };
        assert(r@ =~= Seq::<usize>::empty());
        r
    }

    /// Builds the set that holds `inline`, whose values are distinct, in the list.
    pub fn from_const_unchecked(inline: Vec<usize>) -> (r: Self)
        requires
            inline@.len() <= C,
            inline@.no_duplicates(),
        ensures
            r.wf(),
            r@ == inline@,
    {
        let mut entries: Vec<(usize, ())> = Vec::with_capacity(inline.len());
        let mut i: usize = 0;
        while i < inline.len()
            invariant
                i <= inline@.len(),
                keys(entries@) == inline@.take(i as int),
            decreases inline@.len() - i,
        {
            let ghost before = entries@;
            entries.push((inline[i], ()));
            i += 1;
            assert(keys(entries@) =~= inline@.take(i as int)) by {
                assert(keys(before).len() == i - 1);
                assert forall|j: int| 0 <= j < i - 1 implies keys(entries@)[j] == inline@[j] by {
                    assert(keys(before)[j] == inline@.take(i - 1)[j]);
                }
            }
        }
        proof {
            assert(inline@.take(i as int) =~= inline@);
            lemma_distinct_keys_no_duplicates(entries@);
        }
        SmallSet { data: SmallMap::from_const_unchecked(entries) }
    }

    /// Builds a set by inserting `values` one after the other: a value that came before
    /// is not added again.
    pub fn from_iter(values: Vec<usize>) -> (r: Self)
        ensures
            r.wf(),
            r@ == with_all(Seq::<usize>::empty(), values@),
    {
        let mut set: SmallSet<C> = SmallSet { data: SmallMap::default() };
        assert(set@ =~= Seq::<usize>::empty());
        let mut i: usize = 0;
        while i < values.len()
            invariant
                i <= values@.len(),
                set.wf(),
                set@ == with_all(Seq::<usize>::empty(), values@.take(i as int)),
            decreases values@.len() - i,
        {
            assert(values@.take(i + 1).drop_last() =~= values@.take(i as int));
            let _ = set.insert(values[i]);
            i += 1;
        }
        assert(values@.take(i as int) =~= values@);
        set
    }

    /// Makes a set of the keys of `map`.
    pub fn from_keys(map: SmallMap<(), C>) -> (r: Self)
        requires
            map.wf(),
        ensures
            r.wf(),
            r@ == keys(map@),
    {
        SmallSet { data: map }
    }

    /// The number of values stored in the set.
    pub fn len(&self) -> (n: usize)
        ensures
            n == self@.len(),
    {
        self.data.len()
    }

    /// Returns `true` if the set is empty.
    pub fn is_empty(&self) -> (b: bool)
        ensures
            b == (self@.len() == 0),
    {
        self.data.is_empty()
    }

    /// The number of values that the list holds. If the number of values exceeds the
    /// inline capacity, the set will move to the heap.
    pub fn inline_capacity(&self) -> (n: usize)
        ensures
            n == C,
    {
        self.data.inline_capacity()
    }

    /// Is the data contained by this set stored inline (`true`) or on the heap
    /// (`false`).
    pub fn is_inline(&self) -> (b: bool)
        ensures
            b == self.inline(),
            self.wf() ==> b == (self@.len() <= C),
    {
        self.data.is_inline()
    }

    /// The text of the set for debugging: `{value, value}`, each value as its `Debug`
    /// writes it, in the order of the values.
    pub fn debug_string(&self) -> (text: String)
        ensures
            exists|parts: Seq<Seq<char>>|
                parts.len() == self@.len() && text@ == #[trigger] set_layout(parts),
    {
        let mut text = open_brace();
        let ghost mut parts = Seq::<Seq<char>>::empty();
        let n = self.len();
        let mut i: usize = 0;
        while i < n
            invariant
                i <= n,
                n == self@.len(),
                parts.len() == i,
                text@ == seq!['{'] + values_layout(parts),
            decreases n - i,
        {
            let value = self.get_index(i).unwrap();
            let value_text = debug_piece(value);
            append_value(&mut text, &value_text, i == 0, Ghost(parts));
            proof {
                parts = parts.push(value_text@);
            }
            i += 1;
        }
        close_brace(&mut text);
        assert(text@ == set_layout(parts));
        text
    }

    /// Returns an iterator over the values in insertion order.
    pub fn iter(&self) -> (r: Iter<'_>)
        ensures
            r.wf(),
            r@ == self@,
    {
        Iter::new(self.data.iter())
    }

    /// Turns the set into an iterator that gives up the values in insertion order.
    pub fn into_iter(self) -> (r: IntoIter)
        ensures
            r@ == self@,
    {
        IntoIter::new(self.data.into_iter())
    }

    /// Inserts the specified value into this set, and get their index.
    ///
    /// If the value already exists in the set, it returns the index of the existing item
    /// and `false`, leaving the set and its order as they are. Otherwise, it inserts the
    /// new item last and returns its index and `true`.
    ///
    /// If a new value is added that causes the size of the `SmallSet` to exceed
    /// the inline capacity, all existing data and the new value is moved to the
    /// heap.
    ///
    /// Computational complexity:
    ///  - inline: O(n)
    ///  - heap: O(1)
    pub fn insert_full(&mut self, value: usize) -> (r: (usize, bool))
        requires
            old(self).wf(),
        ensures
            final(self).wf(),
            final(self)@ == with(old(self)@, value),
            r.1 == !old(self)@.contains(value),
            r.0 < final(self)@.len(),
            final(self)@[r.0 as int] == value,
    {
        proof {
            old(self).data.lemma_wf();
            lemma_position(old(self).data@, value);
            lemma_position_in_keys(old(self).data@, value);
            lemma_inserted(old(self).data@, value, ());
        }
        let (index, previous) = self.data.insert_full(value, ());
        proof {
            lemma_position_in_keys(self.data@, value);
        }
        (index, previous.is_none())
    }

    /// Inserts the specified value into this set.
    ///
    /// Returns `true` if the value was newly added, and `false` if the set held it
    /// already; then the set and its order stay as they are.
    ///
    /// If a new value is added that causes the size of the `SmallSet` to exceed
    /// the inline capacity, all existing data and the new value is moved to the
    /// heap.
    ///
    /// Computational complexity:
    ///  - inline: O(n)
    ///  - heap: O(1)
    pub fn insert(&mut self, value: usize) -> (added: bool)
        requires
            old(self).wf(),
        ensures
            final(self).wf(),
            final(self)@ == with(old(self)@, value),
            added == !old(self)@.contains(value),
    {
        self.insert_full(value).1
    }

    /// Get a value by index, if it is present, else `None`.
    ///
    /// Computational complexity: O(1)
    pub fn get_index(&self, index: usize) -> (r: Option<&usize>)
        ensures
            r == if index < self@.len() {
                Some(&self@[index as int])
            } else {
                None
            },
    {
        match self.data.get_index(index) {
            Some((key, _)) => Some(key),
            None => None,
        }
    }

    /// Return the item index, if it exists in the set, else `None`.
    ///
    /// Computational complexity:
    ///  - inline: O(n)
    ///  - heap: O(1)
    pub fn get_index_of(&self, value: usize) -> (r: Option<usize>)
        requires
            self.wf(),
        ensures
            match r {
                Some(i) => i < self@.len() && self@[i as int] == value,
                None => !self@.contains(value),
            },
    {
        proof {
            lemma_position_in_keys(self.data@, value);
        }
        self.data.get_index_of(value)
    }

    /// Return an iterator over the values that are in `self` but not `other`.
    ///
    /// Values are produced in the same order that they appear in `self`.
    pub fn difference<'a, const C2: usize>(&'a self, other: &'a SmallSet<C2>) -> (r: Difference<
        'a,
        C2,
    >)
        requires
            other.wf(),
        ensures
            r.wf(),
            r@ == difference_of(self@, other@),
    {
        Difference::new(self.iter(), other)
    }

    /// Return an iterator over the values that are in `self` or `other`,
    /// but not in both.
    ///
    /// Values from `self` are produced in their original order, followed by
    /// values from `other` in their original order.
    pub fn symmetric_difference<'a, const C2: usize>(&'a self, other: &'a SmallSet<C2>) -> (r:
        SymmetricDifference<'a, C, C2>)
        requires
            self.wf(),
            other.wf(),
        ensures
            r.wf(),
            r@ == symmetric_difference_of(self@, other@),
    {
        let diff1 = self.difference(other);
        let diff2 = other.difference(self);
        SymmetricDifference::new(diff1, diff2)
    }

    /// Return an iterator over the values that are in both `self` and `other`.
    ///
    /// Values are produced in the same order that they appear in `self`.
    pub fn intersection<'a, const C2: usize>(&'a self, other: &'a SmallSet<C2>) -> (r:
        Intersection<'a, C2>)
        requires
            other.wf(),
        ensures
            r.wf(),
            r@ == intersection_of(self@, other@),
    {
        Intersection::new(self.iter(), other)
    }

    /// Return an iterator over all values that are in `self` or `other`.
    ///
    /// Values from `self` are produced in their original order, followed by
    /// values that are unique to `other` in their original order.
    pub fn union<'a, const C2: usize>(&'a self, other: &'a SmallSet<C2>) -> (r: Union<'a, C>)
        requires
            self.wf(),
            other.wf(),
        ensures
            r.wf(),
            r@ == union_of(self@, other@),
    {
        Union::new(self.iter(), other.difference(self))
    }

    /// Return `true` if `value` exists in the set.
    ///
    /// Computational complexity:
    ///  - inline: O(n)
    ///  - heap: O(1)
    pub fn contains(&self, value: usize) -> (b: bool)
        requires
            self.wf(),
        ensures
            b == self@.contains(value),
    {
        proof {
            lemma_position_in_keys(self.data@, value);
        }
        self.data.contains_key(value)
    }

    /// Removes `value` from the set and says whether the set held it.
    ///
    /// The last value takes the place of the removed one: order is not preserved.
    ///
    /// If the removal leaves the set with the inline capacity or fewer values, all
    /// remaining data is moved inline.
    pub fn remove(&mut self, value: usize) -> (held: bool)
        requires
            old(self).wf(),
        ensures
            final(self).wf(),
            held == old(self)@.contains(value),
            final(self)@ == without(old(self)@, value),
    {
        proof {
            old(self).data.lemma_wf();
            lemma_position(old(self).data@, value);
            lemma_position_in_keys(old(self).data@, value);
            lemma_distinct_keys_no_duplicates(old(self).data@);
            if position(old(self).data@, value) is Some {
                let i = position(old(self).data@, value).unwrap();
                lemma_swap_removed(old(self).data@, i);
                lemma_index_of(old(self)@, i);
            }
        }
        self.data.remove(value).is_some()
    }
}

impl<const C: usize> Clone for SmallSet<C> {
    /// A set with the same values in the same order.
    fn clone(&self) -> (r: Self)
        ensures
            r@ == self@,
            self.wf() ==> r.wf(),
            r.inline() == self.inline(),
    {
        let data = self.data.clone();
        proof {
            lemma_entries_cloned_keys(self.data@, data@);
        }
        SmallSet { data }
    }
}

impl<const C: usize> Default for SmallSet<C> {
    /// The empty set.
    fn default() -> (r: Self)
        ensures
            r.wf(),
            r@ == Seq::<usize>::empty(),
    {
        let r = SmallSet { data: SmallMap::default() };
        assert(r@ =~= Seq::<usize>::empty());
        r
    }
}

} // verus!
