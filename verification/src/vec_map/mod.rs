//! [`VecMap`] is a [`Vec`]-backed map, for faster random access.
use std::marker::PhantomData;
use vstd::prelude::*;

pub mod dense;
pub mod entry;
pub mod eq;
pub mod index;
pub mod index_vec;
pub mod iter;

pub use entry::Entry;

verus! {

/// A key that can be used in a map without needing a hasher.
///
/// There is a 1:1 correspondence between a key and its index: turning a key into its index
/// and back gives the same key again. An index `i` *names a key* when it is the index of
/// some key, that is when `Self::key_spec(i).index_spec() == i`.
pub trait IndexKey: Copy + Sized {
    /// The index that this key is associated with.
    spec fn index_spec(&self) -> usize;

    /// The key that is associated with `index`, where `index` names a key.
    spec fn key_spec(index: usize) -> Self;

    /// Going from a key to its index and back gives the key.
    proof fn lemma_key_of_index(key: Self)
        ensures
            Self::key_spec(key.index_spec()) == key,
    ;

    /// Returns the unique index that this key is associated with.
    fn as_index(&self) -> (index: usize)
        ensures
            index == self.index_spec(),
    ;

    /// Converts the index back to the key.
    fn from_index(index: usize) -> (key: Self)
        requires
            Self::key_spec(index).index_spec() == index,
        ensures
            key == Self::key_spec(index),
    ;
}

impl IndexKey for usize {
    open spec fn index_spec(&self) -> usize {
        *self
    }

    open spec fn key_spec(index: usize) -> usize {
        index
    }

    proof fn lemma_key_of_index(key: usize) {
    }

    fn as_index(&self) -> usize {
        *self
    }

    fn from_index(index: usize) -> usize {
        index
    }
}

/// Whether `index` is the index of some key of type `K`.
pub open spec fn names_key<K: IndexKey>(index: usize) -> bool {
    K::key_spec(index).index_spec() == index
}

/// Two keys with the same index are the same key.
pub proof fn law_index_is_injective<K: IndexKey>(a: K, b: K)
    requires
        a.index_spec() == b.index_spec(),
    ensures
        a == b,
{
    K::lemma_key_of_index(a);
    K::lemma_key_of_index(b);
}

/// The number of slots of `slots` that hold a value.
pub open spec fn count_present<V>(slots: Seq<Option<V>>) -> nat
    decreases slots.len(),
{
    if slots.len() == 0 {
        0
    } else {
        count_present(slots.drop_last()) + if slots.last() is Some {
            1nat
        } else {
            0nat
        }
    }
}

/// `n` empty slots.
pub open spec fn empty_slots<V>(n: nat) -> Seq<Option<V>> {
    Seq::new(n, |i: int| None::<V>)
}

/// `slots`, lengthened by empty slots where it is shorter than `n`.
pub open spec fn padded<V>(slots: Seq<Option<V>>, n: nat) -> Seq<Option<V>> {
    if slots.len() >= n {
        slots
    } else {
        slots + empty_slots::<V>((n - slots.len()) as nat)
    }
}

/// `slots` after the slot `index` is given `value`: lengthened by empty slots where it is
/// too short, all other slots as they are.
pub open spec fn slots_inserted<V>(slots: Seq<Option<V>>, index: usize, value: V) -> Seq<
    Option<V>,
> {
    padded(slots, (index + 1) as nat).update(index as int, Some(value))
}

/// `slots` after the pairs of `pairs` are inserted one after the other.
pub open spec fn slots_inserted_all<K: IndexKey, V>(slots: Seq<Option<V>>, pairs: Seq<(K, V)>) -> Seq<
    Option<V>,
>
    decreases pairs.len(),
{
    if pairs.len() == 0 {
        slots
    } else {
        slots_inserted(
            slots_inserted_all(slots, pairs.drop_last()),
            pairs.last().0.index_spec(),
            pairs.last().1,
        )
    }
}

/// The highest slot of `slots` that holds a value, if there is one.
pub open spec fn last_present<V>(slots: Seq<Option<V>>) -> Option<int>
    decreases slots.len(),
{
    if slots.len() == 0 {
        None
    } else if slots.last() is Some {
        Some(slots.len() - 1)
    } else {
        last_present(slots.drop_last())
    }
}

/// No more slots hold a value than there are slots.
pub proof fn lemma_count_at_most_len<V>(slots: Seq<Option<V>>)
    ensures
        count_present(slots) <= slots.len(),
    decreases slots.len(),
{
    if slots.len() > 0 {
        lemma_count_at_most_len(slots.drop_last());
    }
}

/// Empty slots hold no value.
pub proof fn lemma_count_empty_slots<V>(n: nat)
    ensures
        count_present(empty_slots::<V>(n)) == 0,
    decreases n,
{
    if n > 0 {
        assert(empty_slots::<V>(n).drop_last() =~= empty_slots::<V>((n - 1) as nat));
        lemma_count_empty_slots::<V>((n - 1) as nat);
    }
}

/// One more empty slot at the end leaves the count as it is.
pub proof fn lemma_count_push_none<V>(slots: Seq<Option<V>>)
    ensures
        count_present(slots.push(None)) == count_present(slots),
{
    assert(slots.push(None::<V>).drop_last() =~= slots);
}

/// Replacing one slot changes the count by what the slot gains or loses.
pub proof fn lemma_count_update<V>(slots: Seq<Option<V>>, i: int, slot: Option<V>)
    requires
        0 <= i < slots.len(),
    ensures
        count_present(slots.update(i, slot)) + (if slots[i] is Some {
            1nat
        } else {
            0nat
        }) == count_present(slots) + (if slot is Some {
            1nat
        } else {
            0nat
        }),
    decreases slots.len(),
{
    if i == slots.len() - 1 {
        assert(slots.update(i, slot).drop_last() =~= slots.drop_last());
    } else {
        assert(slots.update(i, slot).drop_last() =~= slots.drop_last().update(i, slot));
        lemma_count_update(slots.drop_last(), i, slot);
    }
}

/// Where no slot holds a value the count is zero, and the other way round.
pub proof fn lemma_count_zero<V>(slots: Seq<Option<V>>)
    ensures
        count_present(slots) == 0 <==> (forall|i: int| 0 <= i < slots.len() ==> slots[i] is None),
    decreases slots.len(),
{
    if slots.len() > 0 {
        lemma_count_zero(slots.drop_last());
        if count_present(slots) == 0 {
            assert forall|i: int| 0 <= i < slots.len() implies slots[i] is None by {
                if i < slots.len() - 1 {
                    assert(slots.drop_last()[i] is None);
                }
            }
        } else if forall|i: int| 0 <= i < slots.len() ==> slots[i] is None {
            assert forall|i: int| 0 <= i < slots.drop_last().len() implies slots.drop_last()[i] is None by {
                assert(slots[i] is None);
            }
        }
    }
}

/// What [`last_present`] finds: the slot holds a value and no higher slot does.
pub proof fn lemma_last_present<V>(slots: Seq<Option<V>>)
    ensures
        match last_present(slots) {
            Some(i) => {
                &&& 0 <= i < slots.len()
                &&& slots[i] is Some
                &&& forall|j: int| i < j < slots.len() ==> slots[j] is None
            },
            None => forall|j: int| 0 <= j < slots.len() ==> slots[j] is None,
        },
    decreases slots.len(),
{
    if slots.len() > 0 && slots.last() is None {
        lemma_last_present(slots.drop_last());
        match last_present(slots) {
            Some(i) => {
                assert forall|j: int| i < j < slots.len() implies slots[j] is None by {
                    if j < slots.len() - 1 {
                        assert(slots.drop_last()[j] is None);
                    }
                }
            },
            None => {
                assert forall|j: int| 0 <= j < slots.len() implies slots[j] is None by {
                    if j < slots.len() - 1 {
                        assert(slots.drop_last()[j] is None);
                    }
                }
            },
        }
    }
}

/// Replacing what a slot holds by another value, or nothing by nothing, leaves the count
/// as it is.
pub proof fn lemma_count_same_kind<V>(slots: Seq<Option<V>>, i: int)
    requires
        0 <= i < slots.len(),
    ensures
        forall|slot: Option<V>|
            (slot is Some) == (slots[i] is Some) ==> count_present(
                #[trigger] slots.update(i, slot),
            ) == count_present(slots),
{
    assert forall|slot: Option<V>| (slot is Some) == (slots[i] is Some) implies count_present(
        #[trigger] slots.update(i, slot),
    ) == count_present(slots) by {
        lemma_count_update(slots, i, slot);
    }
}

/// A slot that holds a value, with none above it that does, is the one that
/// [`last_present`] finds.
pub proof fn lemma_last_is<V>(slots: Seq<Option<V>>, i: int)
    requires
        0 <= i < slots.len(),
        slots[i] is Some,
        forall|j: int| i < j < slots.len() ==> slots[j] is None,
    ensures
        last_present(slots) == Some(i),
{
    lemma_last_present(slots);
}

/// A [`Vec`]-backed map.
///
/// It has faster random access performance and slower iteration speed compared
/// to other maps. Makes most sense for relatively dense maps or if iteration is
/// needed significantly less than random access.
///
/// Iteration order follows the natural ordering of [`IndexKey::as_index()`].
///
/// The map is viewed as its sequence of slots: slot `i` holds the value of the key with
/// index `i`, or nothing. The number of slots is the map's capacity.
pub struct VecMap<K, V> {
    data: Vec<Option<V>>,
    len: usize,
    _marker: PhantomData<K>,
}

impl<K, V> View for VecMap<K, V> {
    type V = Seq<Option<V>>;

    closed spec fn view(&self) -> Seq<Option<V>> {
        self.data@
    }
}

impl<K: IndexKey, V> VecMap<K, V> {
    /// The map counts its values rightly, and every slot that holds a value belongs to a key.
    pub closed spec fn wf(&self) -> bool {
        &&& self.len == count_present(self.data@)
        &&& forall|i: int| 0 <= i < self.data@.len() && self.data@[i] is Some ==> names_key::<K>(i as usize)
    }

    /// Whether slots that hold a value all belong to a key.
    pub open spec fn slots_name_keys(slots: Seq<Option<V>>) -> bool {
        forall|i: int| 0 <= i < slots.len() && slots[i] is Some ==> names_key::<K>(i as usize)
    }

    /// Initializes an empty [`VecMap`].
    ///
    /// For performance reasons it's almost always better to avoid dynamic
    /// resizing by using [`Self::with_capacity()`] instead.
    #[must_use]
    pub fn new() -> (r: Self)
        ensures
            r.wf(),
            r@ == Seq::<Option<V>>::empty(),
    {
        Self { data: Vec::new(), len: 0, _marker: PhantomData }
    }

    /// Returns the number of elements the map can hold without reallocating.
    ///
    /// The index range of items that the map can hold without reallocating is
    /// `0..capacity`.
    #[must_use]
    pub fn capacity(&self) -> (n: usize)
        ensures
            n == self@.len(),
    {
        self.data.len()
    }

    /// The slots of the map: slot `i` holds the value of the key with index `i`, or
    /// nothing.
    pub fn as_slots(&self) -> (slots: &Vec<Option<V>>)
        ensures
            slots@ == self@,
    {
        &self.data
    }

    /// Initializes [`VecMap`] with capacity to hold exactly `n` elements in the
    /// index range of `0..n`.
    #[must_use]
    pub fn with_capacity(n: usize) -> (r: Self)
        ensures
            r.wf(),
            r@ == empty_slots::<V>(n as nat),
    {
        let mut data: Vec<Option<V>> = Vec::with_capacity(n);
        let mut i: usize = 0;
        while i < n
            invariant
                i <= n,
                data@ == empty_slots::<V>(i as nat),
            decreases n - i,
        {
            data.push(None);
            i += 1;
            assert(data@ =~= empty_slots::<V>(i as nat));
        }
        proof {
            lemma_count_empty_slots::<V>(n as nat);
        }
        Self { data, len: 0, _marker: PhantomData }
    }

    /// Clears all data from the [`VecMap`] without changing the capacity.
    pub fn clear(&mut self)
        ensures
            final(self).wf(),
            final(self)@ == empty_slots::<V>(old(self)@.len()),
    {
        let capacity = self.data.len();
        self.len = 0;
        self.data.clear();
        let mut i: usize = 0;
        while i < capacity
            invariant
                i <= capacity,
                self.len == 0,
                self.data@ == empty_slots::<V>(i as nat),
            decreases capacity - i,
        {
            self.data.push(None);
            i += 1;
            assert(self.data@ =~= empty_slots::<V>(i as nat));
        }
        proof {
            lemma_count_empty_slots::<V>(capacity as nat);
        }
    }

    /// Reserve capacity for `additional` key-value pairs.
    pub fn reserve(&mut self, additional: usize)
        requires
            old(self).wf(),
            old(self)@.len() + additional <= usize::MAX,
        ensures
            final(self).wf(),
            final(self)@ == old(self)@ + empty_slots::<V>(additional as nat),
    {
        let mut i: usize = 0;
        assert(self.data@ =~= old(self).data@ + empty_slots::<V>(0));
        while i < additional
            invariant
                i <= additional,
                old(self).data@.len() + additional <= usize::MAX,
                self.len == old(self).len,
                self.len == count_present(self.data@),
                self.data@ == old(self).data@ + empty_slots::<V>(i as nat),
            decreases additional - i,
        {
            proof {
                lemma_count_push_none(self.data@);
            }
            self.data.push(None);
            i += 1;
            assert(self.data@ =~= old(self).data@ + empty_slots::<V>(i as nat));
        }
    }

    /// Initializes [`VecMap`] with `n` occurrences of `elem`, one for each of the keys
    /// with the indexes `0..n`.
    pub fn from_elem(elem: V, n: usize) -> (r: Self) where V: Clone
        requires
            forall|i: usize| i < n ==> #[trigger] names_key::<K>(i),
        ensures
            r.wf(),
            r@.len() == n,
            forall|i: int|
                #![trigger r@[i]]
                0 <= i < n ==> r@[i] is Some && cloned(elem, r@[i].unwrap()),
    {
        let mut data: Vec<Option<V>> = Vec::with_capacity(n);
        let mut i: usize = 0;
        while i < n
            invariant
                i <= n,
                data@.len() == i,
                count_present(data@) == i,
                forall|j: int|
                    #![trigger data@[j]]
                    0 <= j < i ==> data@[j] is Some && cloned(elem, data@[j].unwrap()),
            decreases n - i,
        {
            let ghost before = data@;
            data.push(Some(elem.clone()));
            assert(data@.drop_last() =~= before);
            assert(forall|j: int| 0 <= j < i ==> data@[j] == before[j]);
            i += 1;
        }
        Self { data, len: n, _marker: PhantomData }
    }

    /// Makes a map of `slots`: slot `i` holds the value of the key with index `i`.
    pub fn from(slots: Vec<Option<V>>) -> (r: Self)
        requires
            Self::slots_name_keys(slots@),
        ensures
            r.wf(),
            r@ == slots@,
    {
        let mut len: usize = 0;
        let mut i: usize = 0;
        while i < slots.len()
            invariant
                i <= slots@.len(),
                len == count_present(slots@.take(i as int)),
                len <= i,
            decreases slots@.len() - i,
        {
            assert(slots@.take(i + 1).drop_last() =~= slots@.take(i as int));
            if slots[i].is_some() {
                len += 1;
            }
            i += 1;
        }
        assert(slots@.take(i as int) =~= slots@);
        Self { data: slots, len, _marker: PhantomData }
    }

    /// Builds a map by inserting `pairs` one after the other.
    pub fn from_iter(pairs: Vec<(K, V)>) -> (r: Self)
        requires
            forall|i: int| 0 <= i < pairs@.len() ==> (#[trigger] pairs@[i]).0.index_spec() < usize::MAX,
        ensures
            r.wf(),
            r@ == slots_inserted_all(empty_slots::<V>(pairs@.len()), pairs@),
    {
        let mut map = VecMap::with_capacity(pairs.len());
        map.extend(pairs);
        map
    }

    /// Inserts `pairs` one after the other.
    pub fn extend(&mut self, pairs: Vec<(K, V)>)
        requires
            old(self).wf(),
            forall|i: int| 0 <= i < pairs@.len() ==> (#[trigger] pairs@[i]).0.index_spec() < usize::MAX,
        ensures
            final(self).wf(),
            final(self)@ == slots_inserted_all(old(self)@, pairs@),
    {
        for pair in iter: pairs
            invariant
                iter.seq() == pairs@,
                forall|i: int| 0 <= i < pairs@.len() ==> (#[trigger] pairs@[i]).0.index_spec() < usize::MAX,
                self.wf(),
                self@ == slots_inserted_all(old(self)@, pairs@.take(iter.index())),
        {
            assert(pairs@.take(iter.index() + 1).drop_last() =~= pairs@.take(iter.index()));
            assert(pair == pairs@[iter.index()]);
            let _ = self.insert(pair.0, pair.1);
        }
        assert(pairs@.take(pairs@.len() as int) =~= pairs@);
    }

    /// Get the given key's entry in the map for insertion and/or in-place
    /// manipulation.
    pub fn entry(&mut self, key: K) -> (entry: Entry<'_, K, V>)
        requires
            old(self).wf(),
        ensures
            entry.wf(),
            match entry {
                Entry::Occupied(value) => {
                    &&& key.index_spec() < old(self)@.len()
                    &&& old(self)@[key.index_spec() as int] == Some(*value)
                    &&& final(self)@ == old(self)@.update(
                        key.index_spec() as int,
                        Some(*final(value)),
                    )
                    &&& final(self).wf()
                },
                Entry::Vacant(vacant_key, map) => {
                    &&& vacant_key == key
                    &&& *map == *old(self)
                    &&& *final(map) == *final(self)
                    &&& !(key.index_spec() < old(self)@.len() && old(self)@[key.index_spec() as int] is Some)
                },
            },
    {
        let index = key.as_index();
        if index >= self.data.len() {
            Entry::Vacant(key, self)
        } else {
            if self.data[index].is_some() {
                proof {
                    lemma_count_same_kind(self.data@, index as int);
                }
                return Entry::Occupied(self.data[index].as_mut().unwrap());
            }
            return Entry::Vacant(key, self);
        }
    }

    /// Iterates over each key-value pair in the map and keep those where the
    /// closure `keep` returns `true`.
    ///
    /// The elements are visited in order.
    pub fn retain<F>(&mut self, keep: F) where F: Fn(K, &mut V) -> bool
        requires
            old(self).wf(),
            forall|i: int, value: &mut V|
                0 <= i < old(self)@.len() && old(self)@[i] == Some(*value) ==> keep.requires(
                    (K::key_spec(i as usize), value),
                ),
        ensures
            final(self).wf(),
            final(self)@.len() == old(self)@.len(),
            forall|i: int|
                0 <= i < old(self)@.len() ==> match old(self)@[i] {
                    None => (#[trigger] final(self)@[i]) is None,
                    Some(old_value) => exists|value: &mut V, kept: bool|
                        {
                            &&& *value == old_value
                            &&& #[trigger] keep.ensures((K::key_spec(i as usize), value), kept)
                            &&& final(self)@[i] == if kept {
                                Some(*final(value))
                            } else {
                                None
                            }
                        },
                },
    {
        let mut i: usize = 0;
        while i < self.data.len()
            invariant
                i <= self.data@.len(),
                self.wf(),
                old(self).wf(),
                self@.len() == old(self)@.len(),
                forall|j: int, value: &mut V|
                    0 <= j < old(self)@.len() && old(self)@[j] == Some(*value) ==> keep.requires(
                        (K::key_spec(j as usize), value),
                    ),
                forall|j: int|
                    0 <= j < i ==> match old(self)@[j] {
                    None => (#[trigger] self@[j]) is None,
                    Some(old_value) => exists|value: &mut V, kept: bool|
                        {
                            &&& *value == old_value
                            &&& #[trigger] keep.ensures((K::key_spec(j as usize), value), kept)
                            &&& self@[j] == if kept {
                                Some(*final(value))
                            } else {
                                None
                            }
                        },
                },
                forall|j: int| i <= j < self@.len() ==> self@[j] == old(self)@[j],
            decreases self.data@.len() - i,
        {
            let ghost before = self.data@;
            proof {
                lemma_count_same_kind(before, i as int);
                lemma_count_update(before, i as int, None);
            }
            let mut slot = self.data[i].take();
            let kept = match slot.as_mut() {
                Some(value) => keep(K::from_index(i), value),
                None => false,
            };
            if kept {
                self.data[i] = slot;
                assert(self.data@ =~= before.update(i as int, slot));
            } else if slot.is_some() {
                self.len -= 1;
                assert(self.data@ =~= before.update(i as int, None));
            } else {
                assert(self.data@ =~= before);
            }
            assert(forall|j: int| 0 <= j < i ==> self@[j] == before[j]);
            i += 1;
        }
    }

    /// Inserts a key-value pair into the map.
    ///
    /// If the key is present in the map, the value is updated and the old value
    /// is returned. Otherwise, [`None`] is returned.
    pub fn insert(&mut self, key: K, value: V) -> (previous: Option<V>)
        requires
            old(self).wf(),
            key.index_spec() < usize::MAX,
        ensures
            final(self).wf(),
            final(self)@ == slots_inserted(old(self)@, key.index_spec(), value),
            previous == if key.index_spec() < old(self)@.len() {
                old(self)@[key.index_spec() as int]
            } else {
                None
            },
    {
        let index = key.as_index();
        proof {
            K::lemma_key_of_index(key);
        }
        while self.data.len() <= index
            invariant
                index < usize::MAX,
                self.len == old(self).len,
                self.len == count_present(self.data@),
                old(self).data@.len() <= self.data@.len(),
                self.data@ == padded(old(self).data@, self.data@.len()),
                self.data@.len() > old(self).data@.len() ==> self.data@.len() <= index + 1,
            decreases index + 1 - self.data.len(),
        {
            proof {
                lemma_count_push_none(self.data@);
            }
            let ghost before = self.data@;
            self.data.push(None);
            assert(self.data@ =~= padded(old(self).data@, self.data@.len())) by {
                assert(before == padded(old(self).data@, before.len()));
            }
        }
        assert(self.data@ == padded(old(self).data@, (index + 1) as nat));
        let ghost before = self.data@;
        let existing = self.data[index].take();
        self.data[index] = Some(value);
        proof {
            assert(self.data@ =~= before.update(index as int, Some(value)));
            lemma_count_update(before, index as int, Some(value));
            lemma_count_at_most_len(self.data@);
        }
        if existing.is_none() {
            self.len += 1;
        }
        existing
    }

    /// Removes the key-value pair indicated by `key`.
    ///
    /// If the key was present, it is returned. Otherwise [`None`] is returned.
    pub fn remove(&mut self, key: K) -> (removed: Option<V>)
        requires
            old(self).wf(),
        ensures
            final(self).wf(),
            key.index_spec() < old(self)@.len() ==> removed == old(self)@[key.index_spec() as int]
                && final(self)@ == old(self)@.update(key.index_spec() as int, None),
            key.index_spec() >= old(self)@.len() ==> removed.is_none() && final(self)@ == old(self)@,
    {
        let index = key.as_index();
        if index >= self.data.len() {
            None
        } else {
            proof {
                lemma_count_update(self.data@, index as int, None);
            }
            let existing = self.data[index].take();
            if existing.is_some() {
                self.len -= 1;
            }
            assert(self.data@ =~= old(self).data@.update(index as int, None));
            existing
        }
    }

    /// Returns a reference to the value associated with `key` if it exists,
    /// otherwise returns `None`.
    pub fn get(&self, key: K) -> (r: Option<&V>)
        ensures
            r == if key.index_spec() < self@.len() {
                match self@[key.index_spec() as int] {
                    Some(value) => Some(&value),
                    None => None,
                }
            } else {
                None
            },
    {
        let index = key.as_index();
        if index >= self.data.len() {
            None
        } else {
            self.data[index].as_ref()
        }
    }

    /// Returns a mutable reference to the value associated with `key` if it
    /// exists, otherwise returns `None`.
    pub fn get_mut(&mut self, key: K) -> (r: Option<&mut V>)
        requires
            old(self).wf(),
        ensures
            final(self).wf(),
            match r {
                Some(value) => {
                    &&& key.index_spec() < old(self)@.len()
                    &&& old(self)@[key.index_spec() as int] == Some(*value)
                    &&& final(self)@ == old(self)@.update(
                        key.index_spec() as int,
                        Some(*final(value)),
                    )
                },
                None => {
                    &&& !(key.index_spec() < old(self)@.len() && old(self)@[key.index_spec() as int] is Some)
                    &&& final(self)@ == old(self)@
                },
            },
    {
        let index = key.as_index();
        if index >= self.data.len() {
            None
        } else {
            proof {
                lemma_count_same_kind(self.data@, index as int);
            }
            let r = self.data[index].as_mut();
            r
        }
    }

    /// Removes the last key-value pair.
    ///
    /// Worst case performance is O(n) in case the value is at the first index,
    /// where n = the capacity.
    pub fn pop(&mut self) -> (r: Option<(K, V)>)
        requires
            old(self).wf(),
        ensures
            final(self).wf(),
            match last_present(old(self)@) {
                Some(i) => {
                    &&& r == Some((K::key_spec(i as usize), old(self)@[i].unwrap()))
                    &&& final(self)@ == old(self)@.update(i, None)
                },
                None => r.is_none() && final(self)@ == old(self)@,
            },
    {
        proof {
            lemma_last_present(self.data@);
            lemma_count_zero(self.data@);
        }
        if self.is_empty() {
            None
        } else {
            let mut i: usize = self.data.len();
            while i > 0 && self.data[i - 1].is_none()
                invariant
                    i <= self.data@.len(),
                    self.data@ == old(self).data@,
                    forall|j: int| i <= j < self.data@.len() ==> self.data@[j] is None,
                    exists|j: int| 0 <= j < self.data@.len() && self.data@[j] is Some,
                decreases i,
            {
                i -= 1;
            }
            assert(i > 0);
            let index = i - 1;
            proof {
                lemma_count_update(self.data@, index as int, None);
                lemma_last_is(self.data@, index as int);
            }
            let value = self.data[index].take();
            self.len -= 1;
            assert(self.data@ =~= old(self).data@.update(index as int, None));
            Some((K::from_index(index), value.unwrap()))
        }
    }

    /// Returns a mutable reference to the value of `key`, which the map must hold.
    pub fn index_mut(&mut self, key: K) -> (value: &mut V)
        requires
            old(self).wf(),
            key.index_spec() < old(self)@.len(),
            old(self)@[key.index_spec() as int] is Some,
        ensures
            final(self).wf(),
            old(self)@[key.index_spec() as int] == Some(*value),
            final(self)@ == old(self)@.update(key.index_spec() as int, Some(*final(value))),
    {
        let index = key.as_index();
        proof {
            lemma_count_same_kind(self.data@, index as int);
        }
        self.data[index].as_mut().unwrap()
    }

    /// Return the number of key-value pairs in the map.
    #[must_use]
    pub fn len(&self) -> (n: usize)
        requires
            self.wf(),
        ensures
            n == count_present(self@),
    {
        self.len
    }

    /// Returns `true` if the map contains no elements.
    #[must_use]
    pub fn is_empty(&self) -> (b: bool)
        requires
            self.wf(),
        ensures
            b == (count_present(self@) == 0),
    {
        self.len() == 0
    }

    /// Returns `true` if the map contains an item with the specified `key`.
    pub fn contains_key(&self, key: K) -> (b: bool)
        ensures
            b == (key.index_spec() < self@.len() && self@[key.index_spec() as int] is Some),
    {
        self.get(key).is_some()
    }
}

impl<K: IndexKey, V> Default for VecMap<K, V> {
    /// The empty map, without slots.
    fn default() -> (r: Self)
        ensures
            r.wf(),
            r@ == Seq::<Option<V>>::empty(),
    {
        Self::new()
    }
}

} // verus!
