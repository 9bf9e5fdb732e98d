//! `==` on vector maps: two maps are equal when they hold equal values for the same keys,
//! however many empty slots either has at its end.
use vstd::prelude::*;
use vstd::std_specs::cmp::PartialEqSpec;
use vstd::std_specs::cmp::PartialEqSpecImpl;

use crate::vec_map::VecMap;

verus! {

/// The slot `i` of `slots`, or nothing where `slots` ends before it.
pub open spec fn slot_at<V>(slots: Seq<Option<V>>, i: int) -> Option<V> {
    if 0 <= i < slots.len() {
        slots[i]
    } else {
        None
    }
}

/// Two slots both hold nothing, or hold values that `==` takes for equal.
pub open spec fn slot_eq<V: PartialEq>(a: Option<V>, b: Option<V>) -> bool {
    match (a, b) {
        (None, None) => true,
        (Some(x), Some(y)) => x.eq_spec(&y),
        _ => false,
    }
}

/// Slot by slot, up to `n`, the two sequences hold equal values or both nothing.
pub open spec fn slots_eq_up_to<V: PartialEq>(a: Seq<Option<V>>, b: Seq<Option<V>>, n: int) -> bool {
    forall|i: int| #![trigger slot_at(a, i)] 0 <= i < n ==> slot_eq(slot_at(a, i), slot_at(b, i))
}

/// Slot by slot, the two sequences hold equal values or both nothing; the longer one holds
/// nothing beyond the end of the shorter.
pub open spec fn slots_eq<V: PartialEq>(a: Seq<Option<V>>, b: Seq<Option<V>>) -> bool {
    slots_eq_up_to(a, b, if a.len() >= b.len() { a.len() as int } else { b.len() as int })
}

impl<K, V: PartialEq> PartialEq for VecMap<K, V> {
    fn eq(&self, other: &Self) -> (r: bool) {
        let n = if self.data.len() >= other.data.len() {
            self.data.len()
        } else {
            other.data.len()
        };
        let mut i: usize = 0;
        while i < n
            invariant
                i <= n,
                n == if self@.len() >= other@.len() { self@.len() } else { other@.len() },
                V::obeys_eq_spec() ==> slots_eq_up_to(self@, other@, i as int),
            decreases n - i,
        {
            let same = if i < self.data.len() && i < other.data.len() {
                match (&self.data[i], &other.data[i]) {
                    (None, None) => true,
                    (Some(x), Some(y)) => x.eq(y),
                    _ => false,
                }
            } else if i < self.data.len() {
                self.data[i].is_none()
            } else {
                other.data[i].is_none()
            };
            assert(V::obeys_eq_spec() ==> same == slot_eq(
                slot_at(self@, i as int),
                slot_at(other@, i as int),
            ));
            if !same {
                return false;
            }
            i += 1;
        }
        true
    }
}

impl<K, V: PartialEq> PartialEqSpecImpl for VecMap<K, V> {
    open spec fn obeys_eq_spec() -> bool {
        V::obeys_eq_spec()
    }

    open spec fn eq_spec(&self, other: &Self) -> bool {
        slots_eq(self@, other@)
    }
}

impl<K, V: Eq> Eq for VecMap<K, V> {

}

} // verus!
