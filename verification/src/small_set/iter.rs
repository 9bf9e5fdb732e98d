//! Cursors over the values of a [`SmallSet`](crate::small_set::SmallSet), and over what two
//! sets have in common or not.
//!
//! A cursor is viewed as the values that it has not handed out yet.
use vstd::prelude::*;

use crate::entries::keys;
use crate::small_map::iter::IntoIter as MapIntoIter;
use crate::small_map::iter::Iter as MapIter;
use crate::small_set::SmallSet;

verus! {

/// A cursor over the values of a set, from both ends.
pub struct Iter<'a> {
    inner: MapIter<'a, ()>,
}

impl<'a> View for Iter<'a> {
    type V = Seq<usize>;

    closed spec fn view(&self) -> Seq<usize> {
        keys(self.inner@)
    }
}

impl<'a> Clone for Iter<'a> {
    fn clone(&self) -> (r: Self)
        ensures
            r == *self,
    {
        Iter { inner: self.inner.clone() }
    }
}

impl<'a> Iter<'a> {
    /// The cursor's two ends have not crossed.
    pub closed spec fn wf(&self) -> bool {
        self.inner.wf()
    }

    /// A cursor over the keys that `inner` has left.
    pub(crate) fn new(inner: MapIter<'a, ()>) -> (r: Self)
        requires
            inner.wf(),
        ensures
            r.wf(),
            r@ == keys(inner@),
    {
        Iter { inner }
    }

    /// Hands out the first value that is left, if any is.
    pub fn next(&mut self) -> (r: Option<&'a usize>)
        requires
            old(self).wf(),
        ensures
            final(self).wf(),
            match r {
                Some(value) => {
                    &&& old(self)@.len() > 0
                    &&& *value == old(self)@.first()
                    &&& final(self)@ == old(self)@.drop_first()
                },
                None => old(self)@.len() == 0 && final(self)@ == old(self)@,
            },
    {
        let ghost before = self.inner@;
        match self.inner.next() {
            Some((value, _)) => {
                assert(keys(before.drop_first()) =~= keys(before).drop_first());
                Some(value)
            },
            None => None,
        }
    }

    /// Hands out the last value that is left, if any is.
    pub fn next_back(&mut self) -> (r: Option<&'a usize>)
        requires
            old(self).wf(),
        ensures
            final(self).wf(),
            match r {
                Some(value) => {
                    &&& old(self)@.len() > 0
                    &&& *value == old(self)@.last()
                    &&& final(self)@ == old(self)@.drop_last()
                },
                None => old(self)@.len() == 0 && final(self)@ == old(self)@,
            },
    {
        let ghost before = self.inner@;
        match self.inner.next_back() {
            Some((value, _)) => {
                assert(keys(before.drop_last()) =~= keys(before).drop_last());
                Some(value)
            },
            None => None,
        }
    }

    /// The number of values that are left.
    pub fn len(&self) -> (n: usize)
        requires
            self.wf(),
        ensures
            n == self@.len(),
    {
        self.inner.len()
    }
}

/// A cursor that owns the values of a set and gives them up one by one.
pub struct IntoIter {
    inner: MapIntoIter<()>,
}

impl View for IntoIter {
    type V = Seq<usize>;

    closed spec fn view(&self) -> Seq<usize> {
        keys(self.inner@)
    }
}

impl IntoIter {
    /// A cursor that gives up the keys that `inner` has left.
    pub(crate) fn new(inner: MapIntoIter<()>) -> (r: Self)
        ensures
            r@ == keys(inner@),
    {
        IntoIter { inner }
    }

    /// Gives up the first value that is left, if any is.
    pub fn next(&mut self) -> (r: Option<usize>)
        ensures
            match r {
                Some(value) => {
                    &&& old(self)@.len() > 0
                    &&& value == old(self)@.first()
                    &&& final(self)@ == old(self)@.drop_first()
                },
                None => old(self)@.len() == 0 && final(self)@ == old(self)@,
            },
    {
        let ghost before = self.inner@;
        match self.inner.next() {
            Some((value, _)) => {
                assert(keys(before.drop_first()) =~= keys(before).drop_first());
                Some(value)
            },
            None => None,
        }
    }

    /// The number of values that are left.
    pub fn len(&self) -> (n: usize)
        ensures
            n == self@.len(),
    {
        self.inner.len()
    }
}

} // verus!
