//! Lazy cursors over the difference, the intersection, the symmetric difference and the
//! union of two sets. None of them changes either set.
use vstd::prelude::*;

use crate::small_set::iter::Iter;
use crate::small_set::SmallSet;

verus! {

/// The values of `values` that `other` holds (`present`) or does not hold (`!present`), in
/// the order of `values`.
pub open spec fn selected(values: Seq<usize>, other: Seq<usize>, present: bool) -> Seq<usize> {
    values.filter(|value: usize| other.contains(value) == present)
}

/// The values of `a` that `b` does not hold, in the order of `a`.
pub open spec fn difference_of(a: Seq<usize>, b: Seq<usize>) -> Seq<usize> {
    selected(a, b, false)
}

/// The values of `a` that `b` holds too, in the order of `a`.
pub open spec fn intersection_of(a: Seq<usize>, b: Seq<usize>) -> Seq<usize> {
    selected(a, b, true)
}

/// The values of `a` that `b` does not hold, then the values of `b` that `a` does not hold.
pub open spec fn symmetric_difference_of(a: Seq<usize>, b: Seq<usize>) -> Seq<usize> {
    difference_of(a, b) + difference_of(b, a)
}

/// The values of `a`, then the values of `b` that `a` does not hold.
pub open spec fn union_of(a: Seq<usize>, b: Seq<usize>) -> Seq<usize> {
    a + difference_of(b, a)
}

/// Selecting from a sequence looks at its first value and then at the rest.
pub proof fn lemma_selected_first(values: Seq<usize>, other: Seq<usize>, present: bool)
    requires
        values.len() > 0,
    ensures
        selected(values, other, present) == if other.contains(values.first()) == present {
            seq![values.first()] + selected(values.drop_first(), other, present)
        } else {
            selected(values.drop_first(), other, present)
        },
{
    let pred = |value: usize| other.contains(value) == present;
    let head = seq![values.first()];
    assert(values =~= head + values.drop_first());
    Seq::filter_distributes_over_add(head, values.drop_first(), pred);
    reveal_with_fuel(Seq::filter, 2);
    assert(head.drop_last() =~= Seq::<usize>::empty());
    if pred(values.first()) {
        assert(head.filter(pred) =~= head);
    } else {
        assert(head.filter(pred) =~= Seq::<usize>::empty());
        assert(head.filter(pred) + values.drop_first().filter(pred) =~= values.drop_first().filter(
            pred,
        ));
    }
}

/// Selecting from a sequence looks at its last value and then at the rest.
pub proof fn lemma_selected_last(values: Seq<usize>, other: Seq<usize>, present: bool)
    requires
        values.len() > 0,
    ensures
        selected(values, other, present) == if other.contains(values.last()) == present {
            selected(values.drop_last(), other, present).push(values.last())
        } else {
            selected(values.drop_last(), other, present)
        },
{
    reveal(Seq::filter);
}

/// Nothing is selected from nothing.
pub proof fn lemma_selected_empty(values: Seq<usize>, other: Seq<usize>, present: bool)
    requires
        values.len() == 0,
    ensures
        selected(values, other, present) == Seq::<usize>::empty(),
{
    reveal(Seq::filter);
    assert(values =~= Seq::<usize>::empty());
}

/// Hands out the first value that `iter` has left and that `other` holds (`present`) or
/// does not hold (`!present`).
fn next_selected<'a, const C: usize>(iter: &mut Iter<'a>, other: &SmallSet<C>, present: bool) -> (r:
    Option<&'a usize>)
    requires
        old(iter).wf(),
        other.wf(),
    ensures
        final(iter).wf(),
        match r {
            Some(value) => {
                &&& selected(old(iter)@, other@, present).len() > 0
                &&& *value == selected(old(iter)@, other@, present).first()
                &&& selected(final(iter)@, other@, present) == selected(
                    old(iter)@,
                    other@,
                    present,
                ).drop_first()
            },
            None => {
                &&& selected(old(iter)@, other@, present).len() == 0
                &&& selected(final(iter)@, other@, present) == selected(old(iter)@, other@, present)
            },
        },
{
    loop
        invariant
            iter.wf(),
            other.wf(),
            selected(iter@, other@, present) == selected(old(iter)@, other@, present),
        decreases iter@.len(),
    {
        let ghost before = iter@;
        match iter.next() {
            Some(value) => {
                proof {
                    lemma_selected_first(before, other@, present);
                }
                if other.contains(*value) == present {
                    assert((seq![*value] + selected(iter@, other@, present)).drop_first()
                        =~= selected(iter@, other@, present));
                    return Some(value);
                }
            },
            None => {
                proof {
                    lemma_selected_empty(before, other@, present);
                }
                return None;
            },
        }
    }
}

/// Hands out the last value that `iter` has left and that `other` holds (`present`) or
/// does not hold (`!present`).
fn next_back_selected<'a, const C: usize>(
    iter: &mut Iter<'a>,
    other: &SmallSet<C>,
    present: bool,
) -> (r: Option<&'a usize>)
    requires
        old(iter).wf(),
        other.wf(),
    ensures
        final(iter).wf(),
        match r {
            Some(value) => {
                &&& selected(old(iter)@, other@, present).len() > 0
                &&& *value == selected(old(iter)@, other@, present).last()
                &&& selected(final(iter)@, other@, present) == selected(
                    old(iter)@,
                    other@,
                    present,
                ).drop_last()
            },
            None => {
                &&& selected(old(iter)@, other@, present).len() == 0
                &&& selected(final(iter)@, other@, present) == selected(old(iter)@, other@, present)
            },
        },
{
    loop
        invariant
            iter.wf(),
            other.wf(),
            selected(iter@, other@, present) == selected(old(iter)@, other@, present),
        decreases iter@.len(),
    {
        let ghost before = iter@;
        match iter.next_back() {
            Some(value) => {
                proof {
                    lemma_selected_last(before, other@, present);
                }
                if other.contains(*value) == present {
                    assert(selected(iter@, other@, present).push(*value).drop_last()
                        =~= selected(iter@, other@, present));
                    return Some(value);
                }
            },
            None => {
                proof {
                    lemma_selected_empty(before, other@, present);
                }
                return None;
            },
        }
    }
}

/// A lazy cursor over the values of one set that another set does not hold.
pub struct Difference<'a, const C: usize> {
    iter: Iter<'a>,
    other: &'a SmallSet<C>,
}

impl<'a, const C: usize> View for Difference<'a, C> {
    type V = Seq<usize>;

    closed spec fn view(&self) -> Seq<usize> {
        selected(self.iter@, self.other@, false)
    }
}

impl<'a, const C: usize> Clone for Difference<'a, C> {
    fn clone(&self) -> (r: Self)
        ensures
            r == *self,
    {
        Difference { iter: self.iter.clone(), other: self.other }
    }
}

impl<'a, const C: usize> Difference<'a, C> {
    /// The cursor and the set that it looks values up in are well-formed.
    pub closed spec fn wf(&self) -> bool {
        self.iter.wf() && self.other.wf()
    }

    /// A cursor over the values that `iter` has left, as far as `other` does not hold them.
    pub(crate) fn new(iter: Iter<'a>, other: &'a SmallSet<C>) -> (r: Self)
        requires
            iter.wf(),
            other.wf(),
        ensures
            r.wf(),
            r@ == difference_of(iter@, other@),
    {
        Difference { iter, other }
    }

    /// Hands out the first value that is left, if any is.
    pub fn next(&mut self) -> (r: Option<&'a usize>)
        requires
            old(self).wf(),
        ensures
            final(self).wf(),
            match r {
                Some(value) => {
                    &&& old(self)@.len() > 0
                    &&& *value == old(self)@.first()
                    &&& final(self)@ == old(self)@.drop_first()
                },
                None => old(self)@.len() == 0 && final(self)@ == old(self)@,
            },
    {
        next_selected(&mut self.iter, self.other, false)
    }

    /// Hands out the last value that is left, if any is.
    pub fn next_back(&mut self) -> (r: Option<&'a usize>)
        requires
            old(self).wf(),
        ensures
            final(self).wf(),
            match r {
                Some(value) => {
                    &&& old(self)@.len() > 0
                    &&& *value == old(self)@.last()
                    &&& final(self)@ == old(self)@.drop_last()
                },
                None => old(self)@.len() == 0 && final(self)@ == old(self)@,
            },
    {
        next_back_selected(&mut self.iter, self.other, false)
    }
}

/// A lazy cursor over the values of one set that another set holds too.
pub struct Intersection<'a, const C: usize> {
    iter: Iter<'a>,
    other: &'a SmallSet<C>,
}

impl<'a, const C: usize> View for Intersection<'a, C> {
    type V = Seq<usize>;

    closed spec fn view(&self) -> Seq<usize> {
        selected(self.iter@, self.other@, true)
    }
}

impl<'a, const C: usize> Clone for Intersection<'a, C> {
    fn clone(&self) -> (r: Self)
        ensures
            r == *self,
    {
        Intersection { iter: self.iter.clone(), other: self.other }
    }
}

impl<'a, const C: usize> Intersection<'a, C> {
    /// The cursor and the set that it looks values up in are well-formed.
    pub closed spec fn wf(&self) -> bool {
        self.iter.wf() && self.other.wf()
    }

    /// A cursor over the values that `iter` has left, as far as `other` holds them.
    pub(crate) fn new(iter: Iter<'a>, other: &'a SmallSet<C>) -> (r: Self)
        requires
            iter.wf(),
            other.wf(),
        ensures
            r.wf(),
            r@ == intersection_of(iter@, other@),
    {
        Intersection { iter, other }
    }

    /// Hands out the first value that is left, if any is.
    pub fn next(&mut self) -> (r: Option<&'a usize>)
        requires
            old(self).wf(),
        ensures
            final(self).wf(),
            match r {
                Some(value) => {
                    &&& old(self)@.len() > 0
                    &&& *value == old(self)@.first()
                    &&& final(self)@ == old(self)@.drop_first()
                },
                None => old(self)@.len() == 0 && final(self)@ == old(self)@,
            },
    {
        next_selected(&mut self.iter, self.other, true)
    }

    /// Hands out the last value that is left, if any is.
    pub fn next_back(&mut self) -> (r: Option<&'a usize>)
        requires
            old(self).wf(),
        ensures
            final(self).wf(),
            match r {
                Some(value) => {
                    &&& old(self)@.len() > 0
                    &&& *value == old(self)@.last()
                    &&& final(self)@ == old(self)@.drop_last()
                },
                None => old(self)@.len() == 0 && final(self)@ == old(self)@,
            },
    {
        next_back_selected(&mut self.iter, self.other, true)
    }
}

/// A lazy cursor over the values that exactly one of two sets holds.
pub struct SymmetricDifference<'a, const C1: usize, const C2: usize> {
    first: Difference<'a, C2>,
    second: Difference<'a, C1>,
}

impl<'a, const C1: usize, const C2: usize> View for SymmetricDifference<'a, C1, C2> {
    type V = Seq<usize>;

    closed spec fn view(&self) -> Seq<usize> {
        self.first@ + self.second@
    }
}

impl<'a, const C1: usize, const C2: usize> Clone for SymmetricDifference<'a, C1, C2> {
    fn clone(&self) -> (r: Self)
        ensures
            r == *self,
    {
        SymmetricDifference { first: self.first.clone(), second: self.second.clone() }
    }
}

impl<'a, const C1: usize, const C2: usize> SymmetricDifference<'a, C1, C2> {
    /// Both cursors are well-formed.
    pub closed spec fn wf(&self) -> bool {
        self.first.wf() && self.second.wf()
    }

    /// A cursor over what `first` has left and then what `second` has left.
    pub(crate) fn new(first: Difference<'a, C2>, second: Difference<'a, C1>) -> (r: Self)
        requires
            first.wf(),
            second.wf(),
        ensures
            r.wf(),
            r@ == first@ + second@,
    {
        SymmetricDifference { first, second }
    }

    /// Hands out the first value that is left, if any is.
    pub fn next(&mut self) -> (r: Option<&'a usize>)
        requires
            old(self).wf(),
        ensures
            final(self).wf(),
            match r {
                Some(value) => {
                    &&& old(self)@.len() > 0
                    &&& *value == old(self)@.first()
                    &&& final(self)@ == old(self)@.drop_first()
                },
                None => old(self)@.len() == 0 && final(self)@ == old(self)@,
            },
    {
        match self.first.next() {
            Some(value) => {
                assert(self@ =~= old(self)@.drop_first());
                Some(value)
            },
            None => {
                assert(old(self)@ =~= old(self).second@);
                let r = self.second.next();
                assert(self@ =~= self.second@);
                r
            },
        }
    }

    /// Hands out the last value that is left, if any is.
    pub fn next_back(&mut self) -> (r: Option<&'a usize>)
        requires
            old(self).wf(),
        ensures
            final(self).wf(),
            match r {
                Some(value) => {
                    &&& old(self)@.len() > 0
                    &&& *value == old(self)@.last()
                    &&& final(self)@ == old(self)@.drop_last()
                },
                None => old(self)@.len() == 0 && final(self)@ == old(self)@,
            },
    {
        match self.second.next_back() {
            Some(value) => {
                assert(self@ =~= old(self)@.drop_last());
                Some(value)
            },
            None => {
                assert(old(self)@ =~= old(self).first@);
                let r = self.first.next_back();
                assert(self@ =~= self.first@);
                r
            },
        }
    }
}

/// A lazy cursor over the values that at least one of two sets holds.
pub struct Union<'a, const C: usize> {
    first: Iter<'a>,
    second: Difference<'a, C>,
}

impl<'a, const C: usize> View for Union<'a, C> {
    type V = Seq<usize>;

    closed spec fn view(&self) -> Seq<usize> {
        self.first@ + self.second@
    }
}

impl<'a, const C: usize> Clone for Union<'a, C> {
    fn clone(&self) -> (r: Self)
        ensures
            r == *self,
    {
        Union { first: self.first.clone(), second: self.second.clone() }
    }
}

impl<'a, const C: usize> Union<'a, C> {
    /// Both cursors are well-formed.
    pub closed spec fn wf(&self) -> bool {
        self.first.wf() && self.second.wf()
    }

    /// A cursor over what `first` has left and then what `second` has left.
    pub(crate) fn new(first: Iter<'a>, second: Difference<'a, C>) -> (r: Self)
        requires
            first.wf(),
            second.wf(),
        ensures
            r.wf(),
            r@ == first@ + second@,
    {
        Union { first, second }
    }

    /// Hands out the first value that is left, if any is.
    pub fn next(&mut self) -> (r: Option<&'a usize>)
        requires
            old(self).wf(),
        ensures
            final(self).wf(),
            match r {
                Some(value) => {
                    &&& old(self)@.len() > 0
                    &&& *value == old(self)@.first()
                    &&& final(self)@ == old(self)@.drop_first()
                },
                None => old(self)@.len() == 0 && final(self)@ == old(self)@,
            },
    {
        match self.first.next() {
            Some(value) => {
                assert(self@ =~= old(self)@.drop_first());
                Some(value)
            },
            None => {
                assert(old(self)@ =~= old(self).second@);
                let r = self.second.next();
                assert(self@ =~= self.second@);
                r
            },
        }
    }

    /// Hands out the last value that is left, if any is.
    pub fn next_back(&mut self) -> (r: Option<&'a usize>)
        requires
            old(self).wf(),
        ensures
            final(self).wf(),
            match r {
                Some(value) => {
                    &&& old(self)@.len() > 0
                    &&& *value == old(self)@.last()
                    &&& final(self)@ == old(self)@.drop_last()
                },
                None => old(self)@.len() == 0 && final(self)@ == old(self)@,
            },
    {
        match self.second.next_back() {
            Some(value) => {
                assert(self@ =~= old(self)@.drop_last());
                Some(value)
            },
            None => {
                assert(old(self)@ =~= old(self).first@);
                let r = self.first.next_back();
                assert(self@ =~= self.first@);
                r
            },
        }
    }
}

} // verus!
