//! `==` on small maps: two maps are equal when they hold equal entries in the same order,
//! whatever their representation.
use vstd::prelude::*;
use vstd::std_specs::cmp::PartialEqSpec;
use vstd::std_specs::cmp::PartialEqSpecImpl;

use crate::small_map::SmallMap;

verus! {

/// The two sequences hold the same keys in the same order, and place by place values that
/// `==` takes for equal.
pub open spec fn entries_eq<V: PartialEq>(a: Seq<(usize, V)>, b: Seq<(usize, V)>) -> bool {
    &&& a.len() == b.len()
    &&& forall|i: int| #![trigger a[i]] 0 <= i < a.len() ==> a[i].0 == b[i].0 && a[i].1.eq_spec(&b[i].1)
}

impl<V: PartialEq, const C: usize> PartialEq for SmallMap<V, C> {
    fn eq(&self, other: &Self) -> (r: bool) {
        if self.len() != other.len() {
            return false;
        }
        let n = self.len();
        let mut i: usize = 0;
        while i < n
            invariant
                i <= n,
                n == self@.len(),
                n == other@.len(),
                V::obeys_eq_spec() ==> entries_eq(self@.take(i as int), other@.take(i as int)),
            decreases n - i,
        {
            let (key, value) = self.get_index(i).unwrap();
            let (other_key, other_value) = other.get_index(i).unwrap();
            let same = *key == *other_key && value.eq(other_value);
            if !same {
                return false;
            }
            proof {
                if V::obeys_eq_spec() {
                    let a = self@.take(i + 1);
                    let b = other@.take(i + 1);
                    assert forall|j: int| #![trigger a[j]] 0 <= j < a.len() implies a[j].0 == b[j].0
                        && a[j].1.eq_spec(&b[j].1) by {
                        if j < i {
                            assert(self@.take(i as int)[j] == a[j]);
                            assert(other@.take(i as int)[j] == b[j]);
                        }
                    }
                }
            }
            i += 1;
        }
        assert(self@.take(n as int) =~= self@);
        assert(other@.take(n as int) =~= other@);
        true
    }
}

impl<V: PartialEq, const C: usize> PartialEqSpecImpl for SmallMap<V, C> {
    open spec fn obeys_eq_spec() -> bool {
        V::obeys_eq_spec()
    }

    open spec fn eq_spec(&self, other: &Self) -> bool {
        entries_eq(self@, other@)
    }
}

impl<V: Eq, const C: usize> Eq for SmallMap<V, C> {

}

} // verus!
