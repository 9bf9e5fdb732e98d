//! Cursors over the entries of a [`VecMap`], in the order of the keys' indexes.
//!
//! A cursor is viewed as the slots that it has not passed yet and that hold a value, each
//! with its index.
use std::marker::PhantomData;
use vstd::prelude::*;

use crate::vec_map::count_present;
use crate::vec_map::IndexKey;
use crate::vec_map::lemma_count_same_kind;
use crate::vec_map::VecMap;

verus! {

/// The slots of `slots` from `lo` up to `hi` that hold a value, each with its index, in
/// order.
pub open spec fn present_between<V>(slots: Seq<Option<V>>, lo: int, hi: int) -> Seq<(int, V)>
    decreases hi - lo,
{
    if lo >= hi {
        Seq::empty()
    } else {
        match slots[hi - 1] {
            Some(value) => present_between(slots, lo, hi - 1).push((hi - 1, value)),
            None => present_between(slots, lo, hi - 1),
        }
    }
}

/// All slots of `slots` that hold a value, each with its index, in order.
pub open spec fn present<V>(slots: Seq<Option<V>>) -> Seq<(int, V)> {
    present_between(slots, 0, slots.len() as int)
}

/// The values of `entries`, in order.
pub open spec fn values_of<V>(entries: Seq<(int, V)>) -> Seq<V> {
    Seq::new(entries.len(), |i: int| entries[i].1)
}

/// The keys of type `K` that the indexes of `entries` name, in order.
pub open spec fn keys_of<K: IndexKey, V>(entries: Seq<(int, V)>) -> Seq<K> {
    Seq::new(entries.len(), |i: int| K::key_spec(entries[i].0 as usize))
}

/// The slots from `lo` on that hold a value begin with the slot `lo`, where it holds one.
pub proof fn lemma_present_first<V>(slots: Seq<Option<V>>, lo: int, hi: int)
    requires
        0 <= lo < hi <= slots.len(),
    ensures
        present_between(slots, lo, hi) == match slots[lo] {
            Some(value) => seq![(lo, value)] + present_between(slots, lo + 1, hi),
            None => present_between(slots, lo + 1, hi),
        },
    decreases hi - lo,
{
    if lo + 1 == hi {
        assert(present_between(slots, lo, lo) =~= Seq::<(int, V)>::empty());
        assert(present_between(slots, lo + 1, hi) =~= Seq::<(int, V)>::empty());
        match slots[lo] {
            Some(value) => {
                assert(Seq::<(int, V)>::empty().push((lo, value)) =~= seq![(lo, value)]
                    + Seq::<(int, V)>::empty());
            },
            None => {},
        }
    } else {
        lemma_present_first(slots, lo, hi - 1);
        let rest = present_between(slots, lo + 1, hi - 1);
        match (slots[lo], slots[hi - 1]) {
            (Some(first), Some(last)) => {
                assert((seq![(lo, first)] + rest).push((hi - 1, last)) =~= seq![(lo, first)]
                    + rest.push((hi - 1, last)));
            },
            _ => {},
        }
    }
}

/// The two ends of a cursor over the slots of a map, and the number of values between
/// them.
pub struct Bounds {
    front: usize,
    back: usize,
    len: usize,
}

impl Bounds {
    /// The ends are places of `slots` that have not crossed, and `len` counts the values
    /// between them.
    pub closed spec fn wf<V>(&self, slots: Seq<Option<V>>) -> bool {
        &&& self.front <= self.back <= slots.len()
        &&& self.len == present_between(slots, self.front as int, self.back as int).len()
    }

    /// The slots between the ends that hold a value.
    pub closed spec fn left<V>(&self, slots: Seq<Option<V>>) -> Seq<(int, V)> {
        present_between(slots, self.front as int, self.back as int)
    }

    /// The bounds of all of `slots`, of which `len` hold a value.
    fn new<V>(slots: &Vec<Option<V>>, len: usize) -> (r: Self)
        requires
            len == present(slots@).len(),
        ensures
            r.wf(slots@),
            r.left(slots@) == present(slots@),
    {
        Bounds { front: 0, back: slots.len(), len }
    }

    /// The number of values between the ends.
    fn len<V>(&self, slots: &Vec<Option<V>>) -> (n: usize)
        requires
            self.wf(slots@),
        ensures
            n == self.left(slots@).len(),
    {
        self.len
    }

    /// Moves the front end past the first slot that holds a value and gives its index.
    fn advance<V>(&mut self, slots: &Vec<Option<V>>) -> (r: Option<usize>)
        requires
            old(self).wf(slots@),
        ensures
            final(self).wf(slots@),
            match r {
                Some(index) => {
                    &&& old(self).left(slots@).len() > 0
                    &&& index == old(self).left(slots@).first().0
                    &&& index < slots@.len()
                    &&& slots@[index as int] == Some(old(self).left(slots@).first().1)
                    &&& final(self).left(slots@) == old(self).left(slots@).drop_first()
                    &&& final(self).front == index + 1
                    &&& final(self).back == old(self).back
                },
                None => old(self).left(slots@).len() == 0 && final(self).left(slots@) == old(
                    self,
                ).left(slots@),
            },
    {
        if self.len == 0 {
            return None;
        }
        while self.front < self.back
            invariant
                self.wf(slots@),
                self.len > 0,
                self.back == old(self).back,
                self.left(slots@) == old(self).left(slots@),
            decreases self.back - self.front,
        {
            proof {
                lemma_present_first(slots@, self.front as int, self.back as int);
            }
            let index = self.front;
            self.front += 1;
            if slots[index].is_some() {
                self.len -= 1;
                assert(self.left(slots@) =~= old(self).left(slots@).drop_first());
                return Some(index);
            }
        }
        None
    }

    /// Moves the back end before the last slot that holds a value and gives its index.
    fn retreat<V>(&mut self, slots: &Vec<Option<V>>) -> (r: Option<usize>)
        requires
            old(self).wf(slots@),
        ensures
            final(self).wf(slots@),
            match r {
                Some(index) => {
                    &&& old(self).left(slots@).len() > 0
                    &&& index == old(self).left(slots@).last().0
                    &&& index < slots@.len()
                    &&& slots@[index as int] == Some(old(self).left(slots@).last().1)
                    &&& final(self).left(slots@) == old(self).left(slots@).drop_last()
                    &&& final(self).back == index
                    &&& final(self).front == old(self).front
                },
                None => old(self).left(slots@).len() == 0 && final(self).left(slots@) == old(
                    self,
                ).left(slots@),
            },
    {
        if self.len == 0 {
            return None;
        }
        while self.front < self.back
            invariant
                self.wf(slots@),
                self.len > 0,
                self.front == old(self).front,
                self.left(slots@) == old(self).left(slots@),
            decreases self.back - self.front,
        {
            self.back -= 1;
            if slots[self.back].is_some() {
                self.len -= 1;
                assert(self.left(slots@) =~= old(self).left(slots@).drop_last());
                return Some(self.back);
            }
        }
        None
    }
}

/// The slots that hold a value are as many as [`count_present`] counts.
pub proof fn lemma_present_count<V>(slots: Seq<Option<V>>)
    ensures
        present(slots).len() == count_present(slots),
{
    lemma_present_prefix(slots, slots.len() as int);
    assert(slots.take(slots.len() as int) =~= slots);
}

/// The slots below `hi` that hold a value are those of the sequence cut off at `hi`.
proof fn lemma_present_prefix<V>(slots: Seq<Option<V>>, hi: int)
    requires
        0 <= hi <= slots.len(),
    ensures
        present_between(slots, 0, hi).len() == count_present(slots.take(hi)),
    decreases hi,
{
    if hi > 0 {
        lemma_present_prefix(slots, hi - 1);
        assert(slots.take(hi).drop_last() =~= slots.take(hi - 1));
    }
}

/// Slots outside a range do not matter to what the range holds.
pub proof fn lemma_present_same<V>(a: Seq<Option<V>>, b: Seq<Option<V>>, lo: int, hi: int)
    requires
        0 <= lo <= hi <= a.len(),
        a.len() == b.len(),
        forall|i: int| lo <= i < hi ==> a[i] == b[i],
    ensures
        present_between(a, lo, hi) == present_between(b, lo, hi),
    decreases hi - lo,
{
    if lo < hi {
        lemma_present_same(a, b, lo, hi - 1);
    }
}

/// An iterator that iterates over the key-value pairs following the key
/// ordering.
pub struct Iter<'a, K, V> {
    slots: &'a Vec<Option<V>>,
    bounds: Bounds,
    _marker: PhantomData<K>,
}

impl<'a, K, V> View for Iter<'a, K, V> {
    type V = Seq<(int, V)>;

    closed spec fn view(&self) -> Seq<(int, V)> {
        self.bounds.left(self.slots@)
    }
}

impl<'a, K: IndexKey, V> Clone for Iter<'a, K, V> {
    fn clone(&self) -> (r: Self)
        ensures
            r@ == self@,
            self.wf() ==> r.wf(),
    {
        Iter {
            slots: self.slots,
            bounds: Bounds {
                front: self.bounds.front,
                back: self.bounds.back,
                len: self.bounds.len,
            },
            _marker: PhantomData,
        }
    }
}

impl<'a, K: IndexKey, V> Iter<'a, K, V> {
    /// The cursor's ends fit its slots, and every slot that holds a value belongs to a
    /// key.
    pub closed spec fn wf(&self) -> bool {
        &&& self.bounds.wf(self.slots@)
        &&& VecMap::<K, V>::slots_name_keys(self.slots@)
    }

    /// Hands out the first pair that is left, if any is.
    pub fn next(&mut self) -> (r: Option<(K, &'a V)>)
        requires
            old(self).wf(),
        ensures
            final(self).wf(),
            match r {
                Some((key, value)) => {
                    &&& old(self)@.len() > 0
                    &&& key == K::key_spec(old(self)@.first().0 as usize)
                    &&& *value == old(self)@.first().1
                    &&& final(self)@ == old(self)@.drop_first()
                },
                None => old(self)@.len() == 0 && final(self)@ == old(self)@,
            },
    {
        match self.bounds.advance(self.slots) {
            Some(index) => Some((K::from_index(index), self.slots[index].as_ref().unwrap())),
            None => None,
        }
    }

    /// Hands out the last pair that is left, if any is.
    pub fn next_back(&mut self) -> (r: Option<(K, &'a V)>)
        requires
            old(self).wf(),
        ensures
            final(self).wf(),
            match r {
                Some((key, value)) => {
                    &&& old(self)@.len() > 0
                    &&& key == K::key_spec(old(self)@.last().0 as usize)
                    &&& *value == old(self)@.last().1
                    &&& final(self)@ == old(self)@.drop_last()
                },
                None => old(self)@.len() == 0 && final(self)@ == old(self)@,
            },
    {
        match self.bounds.retreat(self.slots) {
            Some(index) => Some((K::from_index(index), self.slots[index].as_ref().unwrap())),
            None => None,
        }
    }

    /// The number of pairs that are left.
    pub fn len(&self) -> (n: usize)
        requires
            self.wf(),
        ensures
            n == self@.len(),
    {
        self.bounds.len(self.slots)
    }
}

/// An iterator over the keys following the key natural order.
pub struct Keys<'a, K, V> {
    inner: Iter<'a, K, V>,
}

impl<'a, K: IndexKey, V> View for Keys<'a, K, V> {
    type V = Seq<K>;

    closed spec fn view(&self) -> Seq<K> {
        keys_of::<K, V>(self.inner@)
    }
}

impl<'a, K: IndexKey, V> Clone for Keys<'a, K, V> {
    fn clone(&self) -> (r: Self)
        ensures
            r@ == self@,
            self.wf() ==> r.wf(),
    {
        Keys { inner: self.inner.clone() }
    }
}

impl<'a, K: IndexKey, V> Keys<'a, K, V> {
    /// The cursor's ends fit its slots, and every slot that holds a value belongs to a
    /// key.
    pub closed spec fn wf(&self) -> bool {
        self.inner.wf()
    }

    /// Hands out the first key that is left, if any is.
    pub fn next(&mut self) -> (r: Option<K>)
        requires
            old(self).wf(),
        ensures
            final(self).wf(),
            match r {
                Some(key) => {
                    &&& old(self)@.len() > 0
                    &&& key == old(self)@.first()
                    &&& final(self)@ == old(self)@.drop_first()
                },
                None => old(self)@.len() == 0 && final(self)@ == old(self)@,
            },
    {
        let ghost before = self.inner@;
        match self.inner.next() {
            Some((key, _)) => {
                assert(keys_of::<K, V>(before.drop_first()) =~= keys_of::<K, V>(before).drop_first());
                Some(key)
            },
            None => None,
        }
    }

    /// Hands out the last key that is left, if any is.
    pub fn next_back(&mut self) -> (r: Option<K>)
        requires
            old(self).wf(),
        ensures
            final(self).wf(),
            match r {
                Some(key) => {
                    &&& old(self)@.len() > 0
                    &&& key == old(self)@.last()
                    &&& final(self)@ == old(self)@.drop_last()
                },
                None => old(self)@.len() == 0 && final(self)@ == old(self)@,
            },
    {
        let ghost before = self.inner@;
        match self.inner.next_back() {
            Some((key, _)) => {
                assert(keys_of::<K, V>(before.drop_last()) =~= keys_of::<K, V>(before).drop_last());
                Some(key)
            },
            None => None,
        }
    }

    /// The number of keys that are left.
    pub fn len(&self) -> (n: usize)
        requires
            self.wf(),
        ensures
            n == self@.len(),
    {
        self.inner.len()
    }
}

/// An iterator over the values following the key natural order.
pub struct Values<'a, V> {
    slots: &'a Vec<Option<V>>,
    bounds: Bounds,
}

impl<'a, V> View for Values<'a, V> {
    type V = Seq<V>;

    closed spec fn view(&self) -> Seq<V> {
        values_of(self.bounds.left(self.slots@))
    }
}

impl<'a, V> Clone for Values<'a, V> {
    fn clone(&self) -> (r: Self)
        ensures
            r@ == self@,
            self.wf() ==> r.wf(),
    {
        Values {
            slots: self.slots,
            bounds: Bounds {
                front: self.bounds.front,
                back: self.bounds.back,
                len: self.bounds.len,
            },
        }
    }
}

impl<'a, V> Values<'a, V> {
    /// The cursor's ends fit its slots.
    pub closed spec fn wf(&self) -> bool {
        self.bounds.wf(self.slots@)
    }

    /// Hands out the first value that is left, if any is.
    pub fn next(&mut self) -> (r: Option<&'a V>)
        requires
            old(self).wf(),
        ensures
            final(self).wf(),
            match r {
                Some(value) => {
                    &&& old(self)@.len() > 0
                    &&& *value == old(self)@.first()
                    &&& final(self)@ == old(self)@.drop_first()
                },
                None => old(self)@.len() == 0 && final(self)@ == old(self)@,
            },
    {
        let ghost before = self.bounds.left(self.slots@);
        match self.bounds.advance(self.slots) {
            Some(index) => {
                assert(values_of(before.drop_first()) =~= values_of(before).drop_first());
                self.slots[index].as_ref()
            },
            None => None,
        }
    }

    /// Hands out the last value that is left, if any is.
    pub fn next_back(&mut self) -> (r: Option<&'a V>)
        requires
            old(self).wf(),
        ensures
            final(self).wf(),
            match r {
                Some(value) => {
                    &&& old(self)@.len() > 0
                    &&& *value == old(self)@.last()
                    &&& final(self)@ == old(self)@.drop_last()
                },
                None => old(self)@.len() == 0 && final(self)@ == old(self)@,
            },
    {
        let ghost before = self.bounds.left(self.slots@);
        match self.bounds.retreat(self.slots) {
            Some(index) => {
                assert(values_of(before.drop_last()) =~= values_of(before).drop_last());
                self.slots[index].as_ref()
            },
            None => None,
        }
    }

    /// The number of values that are left.
    pub fn len(&self) -> (n: usize)
        requires
            self.wf(),
        ensures
            n == self@.len(),
    {
        self.bounds.len(self.slots)
    }
}

impl<K: IndexKey, V> VecMap<K, V> {
    /// Returns an iterator over the key-value pairs of the map, following the
    /// natural order of the keys.
    #[must_use]
    pub fn iter(&self) -> (r: Iter<'_, K, V>)
        requires
            self.wf(),
        ensures
            r.wf(),
            r@ == present(self@),
    {
        proof {
            lemma_present_count(self.data@);
        }
        Iter { slots: &self.data, bounds: Bounds::new(&self.data, self.len), _marker: PhantomData }
    }

    /// Returns an iterator over the keys of the map following the natural order
    /// of the keys.
    #[must_use]
    pub fn keys(&self) -> (r: Keys<'_, K, V>)
        requires
            self.wf(),
        ensures
            r.wf(),
            r@ == keys_of::<K, V>(present(self@)),
    {
        Keys { inner: self.iter() }
    }

    /// Returns an iterator over the values of the map following the natural
    /// order of the keys.
    #[must_use]
    pub fn values(&self) -> (r: Values<'_, V>)
        requires
            self.wf(),
        ensures
            r.wf(),
            r@ == values_of(present(self@)),
    {
        proof {
            lemma_present_count(self.data@);
        }
        Values { slots: &self.data, bounds: Bounds::new(&self.data, self.len) }
    }
}

/// A slot outside a range does not matter to what the range holds.
pub proof fn lemma_present_update_outside<V>(slots: Seq<Option<V>>, lo: int, hi: int, i: int)
    requires
        0 <= lo <= hi <= slots.len(),
        0 <= i < slots.len(),
        i < lo || hi <= i,
    ensures
        forall|slot: Option<V>|
            present_between(#[trigger] slots.update(i, slot), lo, hi) == present_between(
                slots,
                lo,
                hi,
            ),
{
    assert forall|slot: Option<V>|
        present_between(#[trigger] slots.update(i, slot), lo, hi) == present_between(
            slots,
            lo,
            hi,
        ) by {
        lemma_present_same(slots.update(i, slot), slots, lo, hi);
    }
}

/// An owned iterator that iterates over the key-value pairs following the key
/// ordering.
pub struct IntoIter<K, V> {
    data: Vec<Option<V>>,
    bounds: Bounds,
    _marker: PhantomData<K>,
}

impl<K, V> View for IntoIter<K, V> {
    type V = Seq<(int, V)>;

    closed spec fn view(&self) -> Seq<(int, V)> {
        self.bounds.left(self.data@)
    }
}

impl<K: IndexKey, V> IntoIter<K, V> {
    /// The cursor's ends fit its slots, and every slot that holds a value belongs to a
    /// key.
    pub closed spec fn wf(&self) -> bool {
        &&& self.bounds.wf(self.data@)
        &&& VecMap::<K, V>::slots_name_keys(self.data@)
    }

    /// Gives up the first pair that is left, if any is.
    pub fn next(&mut self) -> (r: Option<(K, V)>)
        requires
            old(self).wf(),
        ensures
            final(self).wf(),
            match r {
                Some((key, value)) => {
                    &&& old(self)@.len() > 0
                    &&& key == K::key_spec(old(self)@.first().0 as usize)
                    &&& value == old(self)@.first().1
                    &&& final(self)@ == old(self)@.drop_first()
                },
                None => old(self)@.len() == 0 && final(self)@ == old(self)@,
            },
    {
        match self.bounds.advance(&self.data) {
            Some(index) => {
                proof {
                    lemma_present_update_outside(
                        self.data@,
                        self.bounds.front as int,
                        self.bounds.back as int,
                        index as int,
                    );
                }
                let value = self.data[index].take();
                Some((K::from_index(index), value.unwrap()))
            },
            None => None,
        }
    }

    /// Gives up the last pair that is left, if any is.
    pub fn next_back(&mut self) -> (r: Option<(K, V)>)
        requires
            old(self).wf(),
        ensures
            final(self).wf(),
            match r {
                Some((key, value)) => {
                    &&& old(self)@.len() > 0
                    &&& key == K::key_spec(old(self)@.last().0 as usize)
                    &&& value == old(self)@.last().1
                    &&& final(self)@ == old(self)@.drop_last()
                },
                None => old(self)@.len() == 0 && final(self)@ == old(self)@,
            },
    {
        match self.bounds.retreat(&self.data) {
            Some(index) => {
                proof {
                    lemma_present_update_outside(
                        self.data@,
                        self.bounds.front as int,
                        self.bounds.back as int,
                        index as int,
                    );
                }
                let value = self.data[index].take();
                Some((K::from_index(index), value.unwrap()))
            },
            None => None,
        }
    }

    /// The number of pairs that are left.
    pub fn len(&self) -> (n: usize)
        requires
            self.wf(),
        ensures
            n == self@.len(),
    {
        self.bounds.len(&self.data)
    }
}

/// An iterator over the key-value pairs following the key ordering that lends each value
/// out mutably.
///
/// The pair that [`IterMut::next`] hands out has to be let go before the next is asked for.
pub struct IterMut<'a, K, V> {
    /// The map that the cursor borrows.
    pub map: &'a mut VecMap<K, V>,
    /// The cursor's two ends.
    pub bounds: Bounds,
}

impl<'a, K: IndexKey, V> IterMut<'a, K, V> {
    /// The map is well-formed and the cursor's ends fit its slots.
    pub open spec fn wf(&self) -> bool {
        self.map.wf() && self.bounds.wf(self.map@)
    }

    /// The pairs that the cursor has not passed, each value with the index of its key.
    pub open spec fn left(&self) -> Seq<(int, V)> {
        self.bounds.left(self.map@)
    }

    /// Lends out the first pair that is left, if any is.
    pub fn next(&mut self) -> (r: Option<(K, &mut V)>)
        requires
            old(self).wf(),
        ensures
            final(self).wf(),
            *final(final(self).map) == *final(old(self).map),
            match r {
                Some((key, value)) => {
                    &&& old(self).left().len() > 0
                    &&& key == K::key_spec(old(self).left().first().0 as usize)
                    &&& *value == old(self).left().first().1
                    &&& final(self).map@ == old(self).map@.update(
                        old(self).left().first().0,
                        Some(*final(value)),
                    )
                    &&& final(self).left() == old(self).left().drop_first()
                },
                None => {
                    &&& old(self).left().len() == 0
                    &&& *final(self).map == *old(self).map
                    &&& final(self).left() == old(self).left()
                },
            },
    {
        match self.bounds.advance(&self.map.data) {
            Some(index) => {
                proof {
                    lemma_present_update_outside(
                        self.map.data@,
                        self.bounds.front as int,
                        self.bounds.back as int,
                        index as int,
                    );
                    lemma_count_same_kind(self.map.data@, index as int);
                }
                let key = K::from_index(index);
                Some((key, self.map.data[index].as_mut().unwrap()))
            },
            None => None,
        }
    }

    /// Lends out the last pair that is left, if any is.
    pub fn next_back(&mut self) -> (r: Option<(K, &mut V)>)
        requires
            old(self).wf(),
        ensures
            final(self).wf(),
            *final(final(self).map) == *final(old(self).map),
            match r {
                Some((key, value)) => {
                    &&& old(self).left().len() > 0
                    &&& key == K::key_spec(old(self).left().last().0 as usize)
                    &&& *value == old(self).left().last().1
                    &&& final(self).map@ == old(self).map@.update(
                        old(self).left().last().0,
                        Some(*final(value)),
                    )
                    &&& final(self).left() == old(self).left().drop_last()
                },
                None => {
                    &&& old(self).left().len() == 0
                    &&& *final(self).map == *old(self).map
                    &&& final(self).left() == old(self).left()
                },
            },
    {
        match self.bounds.retreat(&self.map.data) {
            Some(index) => {
                proof {
                    lemma_present_update_outside(
                        self.map.data@,
                        self.bounds.front as int,
                        self.bounds.back as int,
                        index as int,
                    );
                    lemma_count_same_kind(self.map.data@, index as int);
                }
                let key = K::from_index(index);
                Some((key, self.map.data[index].as_mut().unwrap()))
            },
            None => None,
        }
    }

    /// The number of pairs that are left.
    pub fn len(&self) -> (n: usize)
        requires
            self.wf(),
        ensures
            n == self.left().len(),
    {
        self.bounds.len(&self.map.data)
    }
}

impl<K: IndexKey, V> VecMap<K, V> {
    /// Returns an iterator over the key-value pairs of the map, with the values
    /// being mutable, following the natural order of the keys.
    pub fn iter_mut(&mut self) -> (r: IterMut<'_, K, V>)
        requires
            old(self).wf(),
        ensures
            r.wf(),
            r.left() == present(old(self)@),
            *r.map == *old(self),
            *final(r.map) == *final(self),
    {
        proof {
            lemma_present_count(self.data@);
        }
        let bounds = Bounds::new(&self.data, self.len);
        IterMut { map: self, bounds }
    }

    /// Turns the map into an iterator that gives up the key-value pairs following the
    /// natural order of the keys.
    pub fn into_iter(self) -> (r: IntoIter<K, V>)
        requires
            self.wf(),
        ensures
            r.wf(),
            r@ == present(self@),
    {
        proof {
            lemma_present_count(self.data@);
        }
        let bounds = Bounds::new(&self.data, self.len);
        IntoIter { data: self.data, bounds, _marker: PhantomData }
    }
}

} // verus!
