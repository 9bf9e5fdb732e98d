//! `==` on small sets: two sets are equal when they hold the same values in the same
//! order, whatever their representation.
use vstd::prelude::*;
use vstd::std_specs::cmp::PartialEqSpecImpl;

use crate::small_set::SmallSet;

verus! {

impl<const C: usize> PartialEq for SmallSet<C> {
    fn eq(&self, other: &Self) -> (r: bool) {
        if self.len() != other.len() {
            return false;
        }
        let n = self.len();
        let mut i: usize = 0;
        while i < n
            invariant
                i <= n,
                n == self@.len(),
                n == other@.len(),
                self@.take(i as int) == other@.take(i as int),
            decreases n - i,
        {
            let value = self.get_index(i).unwrap();
            let other_value = other.get_index(i).unwrap();
            if *value != *other_value {
                assert(self@[i as int] != other@[i as int]);
                return false;
            }
            i += 1;
            assert(self@.take(i as int) =~= other@.take(i as int)) by {
                assert(self@.take(i as int).drop_last() =~= self@.take(i - 1));
                assert(other@.take(i as int).drop_last() =~= other@.take(i - 1));
                assert forall|j: int| 0 <= j < i implies self@.take(i as int)[j] == other@.take(
                    i as int,
                )[j] by {
                    if j < i - 1 {
                        assert(self@.take(i - 1)[j] == other@.take(i - 1)[j]);
                    }
                }
            }
        }
        assert(self@.take(n as int) =~= self@);
        assert(other@.take(n as int) =~= other@);
        true
    }
}

impl<const C: usize> PartialEqSpecImpl for SmallSet<C> {
    open spec fn obeys_eq_spec() -> bool {
        true
    }

    open spec fn eq_spec(&self, other: &Self) -> bool {
        self@ == other@
    }
}

impl<const C: usize> Eq for SmallSet<C> {

}

} // verus!
