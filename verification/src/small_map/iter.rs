//! Cursors over the entries of a [`SmallMap`], in their order.
//!
//! Both representations of the map keep the entries in a vector, so one kind of cursor
//! serves both. A cursor is viewed as the entries that it has not handed out yet.
use vstd::prelude::*;

use crate::entries::keys;
use crate::small_map::SmallMap;

verus! {

/// A cursor over the key-value pairs of a map, from both ends.
pub struct Iter<'a, V> {
    entries: &'a Vec<(usize, V)>,
    front: usize,
    back: usize,
}

impl<'a, V> View for Iter<'a, V> {
    type V = Seq<(usize, V)>;

    closed spec fn view(&self) -> Seq<(usize, V)> {
        self.entries@.subrange(self.front as int, self.back as int)
    }
}

impl<'a, V> Clone for Iter<'a, V> {
    fn clone(&self) -> (r: Self)
        ensures
            r == *self,
    {
        Iter { entries: self.entries, front: self.front, back: self.back }
    }
}

impl<'a, V> Iter<'a, V> {
    /// The cursor's two ends are places of its vector and have not crossed.
    pub closed spec fn wf(&self) -> bool {
        self.front <= self.back <= self.entries@.len()
    }

    /// A cursor over all of `entries`.
    pub(crate) fn new(entries: &'a Vec<(usize, V)>) -> (r: Self)
        ensures
            r.wf(),
            r@ == entries@,
    {
        let r = Iter { entries, front: 0, back: entries.len() };
        assert(r@ =~= entries@);
        r
    }

    /// Hands out the first pair that is left, if any is.
    pub fn next(&mut self) -> (r: Option<(&'a usize, &'a V)>)
        requires
            old(self).wf(),
        ensures
            final(self).wf(),
            match r {
                Some((key, value)) => {
                    &&& old(self)@.len() > 0
                    &&& (*key, *value) == old(self)@.first()
                    &&& final(self)@ == old(self)@.drop_first()
                },
                None => old(self)@.len() == 0 && final(self)@ == old(self)@,
            },
    {
        if self.front < self.back {
            let entry = &self.entries[self.front];
            self.front += 1;
            assert(self@ =~= old(self)@.drop_first());
            Some((&entry.0, &entry.1))
        } else {
            None
        }
    }

    /// Hands out the last pair that is left, if any is.
    pub fn next_back(&mut self) -> (r: Option<(&'a usize, &'a V)>)
        requires
            old(self).wf(),
        ensures
            final(self).wf(),
            match r {
                Some((key, value)) => {
                    &&& old(self)@.len() > 0
                    &&& (*key, *value) == old(self)@.last()
                    &&& final(self)@ == old(self)@.drop_last()
                },
                None => old(self)@.len() == 0 && final(self)@ == old(self)@,
            },
    {
        if self.front < self.back {
            self.back -= 1;
            let entry = &self.entries[self.back];
            assert(self@ =~= old(self)@.drop_last());
            Some((&entry.0, &entry.1))
        } else {
            None
        }
    }

    /// The number of pairs that are left.
    pub fn len(&self) -> (n: usize)
        requires
            self.wf(),
        ensures
            n == self@.len(),
    {
        self.back - self.front
    }
}

/// A cursor over the keys of a map.
pub struct Keys<'a, V> {
    inner: Iter<'a, V>,
}

impl<'a, V> View for Keys<'a, V> {
    type V = Seq<usize>;

    closed spec fn view(&self) -> Seq<usize> {
        keys(self.inner@)
    }
}

impl<'a, V> Clone for Keys<'a, V> {
    fn clone(&self) -> (r: Self)
        ensures
            r == *self,
    {
        Keys { inner: self.inner.clone() }
    }
}

impl<'a, V> Keys<'a, V> {
    /// The cursor's two ends are places of its vector and have not crossed.
    pub closed spec fn wf(&self) -> bool {
        self.inner.wf()
    }

    /// A cursor over the keys of all of `entries`.
    pub(crate) fn new(entries: &'a Vec<(usize, V)>) -> (r: Self)
        ensures
            r.wf(),
            r@ == keys(entries@),
    {
        Keys { inner: Iter::new(entries) }
    }

    /// Hands out the first key that is left, if any is.
    pub fn next(&mut self) -> (r: Option<&'a usize>)
        requires
            old(self).wf(),
        ensures
            final(self).wf(),
            match r {
                Some(key) => {
                    &&& old(self)@.len() > 0
                    &&& *key == old(self)@.first()
                    &&& final(self)@ == old(self)@.drop_first()
                },
                None => old(self)@.len() == 0 && final(self)@ == old(self)@,
            },
    {
        let ghost before = self.inner@;
        match self.inner.next() {
            Some((key, _)) => {
                assert(keys(before.drop_first()) =~= keys(before).drop_first());
                Some(key)
            },
            None => None,
        }
    }

    /// The number of keys that are left.
    pub fn len(&self) -> (n: usize)
        requires
            self.wf(),
        ensures
            n == self@.len(),
    {
        self.inner.len()
    }
}

/// A cursor that owns the entries of a map and gives them up one by one.
pub struct IntoIter<V> {
    // What is left, the last to give up first.
    rest: Vec<(usize, V)>,
}

impl<V> View for IntoIter<V> {
    type V = Seq<(usize, V)>;

    closed spec fn view(&self) -> Seq<(usize, V)> {
        self.rest@.reverse()
    }
}

impl<V> IntoIter<V> {
    /// A cursor that gives up all of `entries`, in their order.
    pub(crate) fn new(entries: Vec<(usize, V)>) -> (r: Self)
        ensures
            r@ == entries@,
    {
        let mut entries = entries;
        let mut rest: Vec<(usize, V)> = Vec::with_capacity(entries.len());
        let ghost all = entries@;
        while entries.len() > 0
            invariant
                entries@ + rest@.reverse() == all,
            decreases entries@.len(),
        {
            let ghost before = entries@;
            let ghost done = rest@;
            let entry = entries.pop().unwrap();
            rest.push(entry);
            assert(entries@ + rest@.reverse() =~= before + done.reverse());
        }
        assert(rest@.reverse() =~= all);
        IntoIter { rest }
    }

    /// Gives up the first pair that is left, if any is.
    pub fn next(&mut self) -> (r: Option<(usize, V)>)
        ensures
            match r {
                Some(entry) => {
                    &&& old(self)@.len() > 0
                    &&& entry == old(self)@.first()
                    &&& final(self)@ == old(self)@.drop_first()
                },
                None => old(self)@.len() == 0 && final(self)@ == old(self)@,
            },
    {
        let r = self.rest.pop();
        proof {
            if r is Some {
                assert(self@ =~= old(self)@.drop_first());
            }
        }
        r
    }

    /// The number of pairs that are left.
    pub fn len(&self) -> (n: usize)
        ensures
            n == self@.len(),
    {
        self.rest.len()
    }
}

/// A cursor over the key-value pairs of a map that lends each value out mutably.
///
/// The pair that [`IterMut::next`] hands out has to be let go before the next is asked for.
pub struct IterMut<'a, V, const C: usize> {
    /// The map that the cursor borrows.
    pub map: &'a mut SmallMap<V, C>,
    /// The number of pairs that the cursor has passed.
    pub passed: usize,
}

impl<'a, V, const C: usize> IterMut<'a, V, C> {
    /// The map is well-formed and the cursor has passed no more pairs than it holds.
    pub open spec fn wf(&self) -> bool {
        self.map.wf() && self.passed <= self.map@.len()
    }

    /// The number of pairs that the cursor has not passed.
    pub open spec fn remaining(&self) -> int {
        self.map@.len() - self.passed
    }

    /// A cursor at the first entry of `map`.
    pub(crate) fn new(map: &'a mut SmallMap<V, C>) -> (r: Self)
        requires
            old(map).wf(),
        ensures
            r.wf(),
            r.passed == 0,
            *r.map == *old(map),
            *final(r.map) == *final(map),
    {
        IterMut { map, passed: 0 }
    }

    /// Lends out the first pair that is left, if any is.
    pub fn next(&mut self) -> (r: Option<(&usize, &mut V)>)
        requires
            old(self).wf(),
        ensures
            final(self).wf(),
            *final(final(self).map) == *final(old(self).map),
            match r {
                Some((key, value)) => {
                    &&& old(self).passed < old(self).map@.len()
                    &&& final(self).passed == old(self).passed + 1
                    &&& (*key, *value) == old(self).map@[old(self).passed as int]
                    &&& final(self).map@ == old(self).map@.update(
                        old(self).passed as int,
                        (*key, *final(value)),
                    )
                },
                None => {
                    &&& old(self).passed == old(self).map@.len()
                    &&& final(self).passed == old(self).passed
                    &&& *final(self).map == *old(self).map
                },
            },
    {
        if self.passed < self.map.len() {
            let at = self.passed;
            self.passed += 1;
            self.map.get_index_mut(at)
        } else {
            None
        }
    }

    /// The number of pairs that are left.
    pub fn len(&self) -> (n: usize)
        requires
            self.wf(),
        ensures
            n == self.remaining(),
    {
        self.map.len() - self.passed
    }
}

} // verus!
