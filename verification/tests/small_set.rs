use more_collections::small_map::SmallMap;
use more_collections::small_set::Difference;
use more_collections::small_set::Intersection;
use more_collections::small_set::Iter;
use more_collections::small_set::SymmetricDifference;
use more_collections::small_set::Union;
use more_collections::OrderedMap;
use more_collections::SmallSet;

// The values of the set tests, which stand for the one-letter strings "a", "b" and "d".
const A: usize = 10;
const B: usize = 11;
const D: usize = 13;

/// Builds a set from literal values: by inserting them where they fit inline, from an
/// ordered map where they do not.
fn smallset<const C: usize>(values: Vec<usize>) -> SmallSet<C> {
    let mut map = SmallMap::<(), C>::new();
    let map = if values.len() <= map.inline_capacity() {
        for value in values {
            map.insert(value, ());
        }
        map
    } else {
        SmallMap::from_map(OrderedMap::from_iter(
            values.into_iter().map(|value| (value, ())).collect(),
        ))
    };
    SmallSet::from_keys(map)
}

fn values_of<const C: usize>(set: &SmallSet<C>) -> Vec<usize> {
    forward(set.iter())
}

fn forward(mut iter: Iter<'_>) -> Vec<usize> {
    let mut out = Vec::new();
    while let Some(value) = iter.next() {
        out.push(*value);
    }
    out
}

fn difference<const C: usize>(mut iter: Difference<'_, C>) -> Vec<usize> {
    let mut out = Vec::new();
    while let Some(value) = iter.next() {
        out.push(*value);
    }
    out
}

fn difference_rev<const C: usize>(mut iter: Difference<'_, C>) -> Vec<usize> {
    let mut out = Vec::new();
    while let Some(value) = iter.next_back() {
        out.push(*value);
    }
    out
}

fn intersection<const C: usize>(mut iter: Intersection<'_, C>) -> Vec<usize> {
    let mut out = Vec::new();
    while let Some(value) = iter.next() {
        out.push(*value);
    }
    out
}

fn intersection_rev<const C: usize>(mut iter: Intersection<'_, C>) -> Vec<usize> {
    let mut out = Vec::new();
    while let Some(value) = iter.next_back() {
        out.push(*value);
    }
    out
}

fn symmetric<const C1: usize, const C2: usize>(
    mut iter: SymmetricDifference<'_, C1, C2>,
) -> Vec<usize> {
    let mut out = Vec::new();
    while let Some(value) = iter.next() {
        out.push(*value);
    }
    out
}

fn symmetric_rev<const C1: usize, const C2: usize>(
    mut iter: SymmetricDifference<'_, C1, C2>,
) -> Vec<usize> {
    let mut out = Vec::new();
    while let Some(value) = iter.next_back() {
        out.push(*value);
    }
    out
}

fn union<const C: usize>(mut iter: Union<'_, C>) -> Vec<usize> {
    let mut out = Vec::new();
    while let Some(value) = iter.next() {
        out.push(*value);
    }
    out
}

fn union_rev<const C: usize>(mut iter: Union<'_, C>) -> Vec<usize> {
    let mut out = Vec::new();
    while let Some(value) = iter.next_back() {
        out.push(*value);
    }
    out
}

#[test]
fn small_set_test_len_and_inline_capacity() {
    let mut set = SmallSet::<1>::new();
    assert_eq!(0, set.len());
    assert_eq!(0, set.iter().len());
    set.insert(0);
    assert_eq!(1, set.len());
    assert_eq!(1, set.iter().len());

    let set: SmallSet<10> = smallset(vec![0, 1, 4]);
    assert_eq!(3, set.len());
    assert_eq!(10, set.inline_capacity());

    let set = SmallSet::<3>::from_const_unchecked(vec![0, 1, 4]);
    assert_eq!(3, set.len());
    assert_eq!(3, set.iter().len());
    assert_eq!(3, set.inline_capacity());
}

#[test]
fn smallset_macro_removes_duplicates() {
    let set: SmallSet<10> = smallset(vec![0, 0]);
    assert_eq!(1, set.len());
}

#[test]
fn small_set_iter_iterates_in_insertion_order() {
    fn test<const C: usize>(inline: bool) {
        let inline_map: SmallSet<C> = smallset(vec![1, 0, 4]);
        assert_eq!(inline, inline_map.is_inline());
        assert_eq!(
            vec![1, 0, 4],
            values_of(&inline_map),
            "iter() does not return values in the correct order"
        );
        let mut into_iter = inline_map.into_iter();
        assert_eq!(3, into_iter.len());
        let mut out = Vec::new();
        while let Some(value) = into_iter.next() {
            out.push(value);
        }
        assert_eq!(
            vec![1, 0, 4],
            out,
            "into_iter() does not return values in the correct order"
        );
    }
    test::<1>(false);
    test::<3>(true);
}

#[test]
fn small_set_insert_and_insert_full_tests() {
    // `insert` and `insert_full` say `true` when the value was newly added.
    let values = [10, 5, 86, 93];
    struct TestCase {
        name: &'static str,
        initial_values: Vec<usize>,
        insert_value: usize,
        expected_inline_before: bool,
        expected_inline_after: bool,
        expected_values: Vec<usize>,
        expected_return: (usize, bool),
    }
    let test_cases = [
        TestCase {
            name: "new key/value, stay inline",
            initial_values: values[0..2].to_vec(),
            insert_value: 7,
            expected_inline_before: true,
            expected_inline_after: true,
            expected_values: vec![10, 5, 7],
            expected_return: (2, true),
        },
        TestCase {
            name: "new key/value, move to heap",
            initial_values: values[0..3].to_vec(),
            insert_value: 7,
            expected_inline_before: true,
            expected_inline_after: false,
            expected_values: vec![10, 5, 86, 7],
            expected_return: (3, true),
        },
        TestCase {
            name: "new key/value, stay on heap",
            initial_values: values[0..4].to_vec(),
            insert_value: 7,
            expected_inline_before: false,
            expected_inline_after: false,
            expected_values: vec![10, 5, 86, 93, 7],
            expected_return: (4, true),
        },
        TestCase {
            name: "overwrite existing key/value, stay inline",
            initial_values: values[0..3].to_vec(),
            insert_value: 5,
            expected_inline_before: true,
            expected_inline_after: true,
            expected_values: vec![10, 5, 86],
            expected_return: (1, false),
        },
        TestCase {
            name: "overwrite existing key/value, stay on heap",
            initial_values: values[0..4].to_vec(),
            insert_value: 10,
            expected_inline_before: false,
            expected_inline_after: false,
            expected_values: vec![10, 5, 86, 93],
            expected_return: (0, false),
        },
    ];

    for test_case in test_cases {
        let mut small_set_1 = SmallSet::<3>::new();
        for v in test_case.initial_values {
            small_set_1.insert(v);
        }
        let mut small_set_2 = small_set_1.clone();

        for set in [&small_set_1, &small_set_2] {
            assert_eq!(
                test_case.expected_inline_before,
                set.is_inline(),
                "inline state before insertion in SmallSet does not match expected in test '{}'",
                test_case.name
            );
        }

        let actual_return_1 = small_set_1.insert(test_case.insert_value);
        let actual_return_2 = small_set_2.insert_full(test_case.insert_value);
        assert_eq!(
            test_case.expected_return.1, actual_return_1,
            "return of insertion in SmallMap does not match expected return in test '{}'",
            test_case.name
        );
        assert_eq!(
            test_case.expected_return, actual_return_2,
            "return of insertion_full in SmallMap does not match expected return in test '{}'",
            test_case.name
        );

        for set in [small_set_1, small_set_2] {
            assert_eq!(
                test_case.expected_inline_after,
                set.is_inline(),
                "inline state after insertion in SmallSet does not match expected in test '{}'",
                test_case.name
            );
            assert_eq!(
                test_case.expected_values,
                values_of(&set),
                "values in SmallSet do not match expected values in test '{}'",
                test_case.name
            );
        }
    }
}

#[test]
fn small_set_equality_is_consistent() {
    let set1: SmallSet<3> = smallset(vec![0, 1, 4]);
    let set2 = SmallSet::<3>::from_const_unchecked(vec![0, 1, 4]);
    let set3 = SmallSet::<3>::from_iter(vec![0, 1, 4]);
    let mut set4 = SmallSet::<3>::new();
    set4.insert(0);
    set4.insert(1);
    set4.insert(4);

    assert!(set1 == set2);
    assert!(set1 == set3);
    assert!(set1 == set4);

    assert!(set2 == set3);
    assert!(set2 == set4);

    assert!(set3 == set4);
}

#[test]
fn small_set_empty_small_maps_are_equal() {
    let set1: SmallSet<3> = smallset(vec![]);
    let set2: SmallSet<3> = smallset(vec![]);
    assert!(set1 == set2);
}

#[test]
fn test_difference() {
    fn test<const C1: usize, const C2: usize>(inline_a: bool, inline_b: bool) {
        let set_a: SmallSet<C1> = smallset(vec![2, 1, 3, B]);
        let set_b: SmallSet<C2> = smallset(vec![2, D, 1, 3, A]);
        assert_eq!(inline_a, set_a.is_inline());
        assert_eq!(inline_b, set_b.is_inline());

        let diff_a = difference(set_a.difference(&set_b));
        assert_eq!(vec![B], diff_a);
        let diff_b = difference(set_b.difference(&set_a));
        assert_eq!(vec![D, A], diff_b);
        let diff_b_reverse = difference_rev(set_b.difference(&set_a));
        assert_eq!(vec![A, D], diff_b_reverse);

        assert_eq!(0, difference(set_a.difference(&set_a)).len());
    }
    test::<1, 1>(false, false);
    test::<1, 5>(false, true);
    test::<4, 5>(true, true);
    test::<4, 4>(true, false);
}

#[test]
fn test_symmetric_difference() {
    fn test<const C1: usize, const C2: usize>(inline_a: bool, inline_b: bool) {
        let set_a: SmallSet<C1> = smallset(vec![2, 1, 3, B]);
        let set_b: SmallSet<C2> = smallset(vec![2, D, 1, 3, A]);
        assert_eq!(inline_a, set_a.is_inline());
        assert_eq!(inline_b, set_b.is_inline());

        let diff_a = symmetric(set_a.symmetric_difference(&set_b));
        assert_eq!(vec![B, D, A], diff_a);
        let diff_b = symmetric(set_b.symmetric_difference(&set_a));
        assert_eq!(vec![D, A, B], diff_b);
        let diff_b_reverse = symmetric_rev(set_b.symmetric_difference(&set_a));
        assert_eq!(vec![B, A, D], diff_b_reverse);

        assert_eq!(0, symmetric(set_a.symmetric_difference(&set_a)).len());
    }
    test::<1, 1>(false, false);
    test::<1, 5>(false, true);
    test::<4, 5>(true, true);
    test::<4, 4>(true, false);
}

#[test]
fn test_intersection() {
    fn test<const C1: usize, const C2: usize>(inline_a: bool, inline_b: bool) {
        let set_a: SmallSet<C1> = smallset(vec![2, 1, 3, B]);
        let set_b: SmallSet<C2> = smallset(vec![1, D, 3, 2, A]);
        assert_eq!(inline_a, set_a.is_inline());
        assert_eq!(inline_b, set_b.is_inline());

        let diff_a = intersection(set_a.intersection(&set_b));
        assert_eq!(vec![2, 1, 3], diff_a);
        let diff_b = intersection(set_b.intersection(&set_a));
        assert_eq!(vec![1, 3, 2], diff_b);
        let diff_b_reverse = intersection_rev(set_b.intersection(&set_a));
        assert_eq!(vec![2, 3, 1], diff_b_reverse);

        assert_eq!(vec![2, 1, 3, B], intersection(set_a.intersection(&set_a)));
    }
    test::<1, 1>(false, false);
    test::<1, 5>(false, true);
    test::<4, 5>(true, true);
    test::<4, 4>(true, false);
}

#[test]
fn test_union() {
    fn test<const C1: usize, const C2: usize>(inline_a: bool, inline_b: bool) {
        let set_a: SmallSet<C1> = smallset(vec![2, 1, 3, B]);
        let set_b: SmallSet<C2> = smallset(vec![1, D, 3, 2, A]);
        assert_eq!(inline_a, set_a.is_inline());
        assert_eq!(inline_b, set_b.is_inline());

        let diff_a = union(set_a.union(&set_b));
        assert_eq!(vec![2, 1, 3, B, D, A], diff_a);
        let diff_b = union(set_b.union(&set_a));
        assert_eq!(vec![1, D, 3, 2, A, B], diff_b);
        let diff_b_reverse = union_rev(set_b.union(&set_a));
        assert_eq!(vec![B, A, 2, 3, D, 1], diff_b_reverse);

        assert_eq!(vec![2, 1, 3, B], union(set_a.union(&set_a)));
    }
    test::<1, 1>(false, false);
    test::<1, 5>(false, true);
    test::<4, 5>(true, true);
    test::<4, 4>(true, false);
}

#[test]
fn scenario_union_of_heap_and_inline_set() {
    let set_a: SmallSet<1> = smallset(vec![2, 1, 3, B]);
    let set_b: SmallSet<5> = smallset(vec![2, D, 1, 3, A]);
    assert!(!set_a.is_inline());
    assert!(set_b.is_inline());
    assert_eq!(vec![2, 1, 3, B, D, A], union(set_a.union(&set_b)));
}

#[test]
fn small_set_get_index_of_and_contains_test() {
    fn test<const C: usize>(inline: bool) {
        let set: SmallSet<C> = smallset(vec![2, 1, 3]);
        assert_eq!(inline, set.is_inline());

        assert_eq!(None, set.get_index_of(0));
        assert!(!set.contains(0));

        assert_eq!(Some(1), set.get_index_of(1));
        assert!(set.contains(1));
        assert_eq!(Some(0), set.get_index_of(2));
        assert!(set.contains(2));
        assert_eq!(Some(2), set.get_index_of(3));
        assert!(set.contains(3));
    }
    test::<1>(false);
    test::<3>(true);
}

#[test]
fn set_remove_swaps_the_last_value_in() {
    fn test<const C: usize>(inline_before: bool, inline_after: bool) {
        let mut set: SmallSet<C> = smallset(vec![7, 8, 9, 10]);
        assert_eq!(inline_before, set.is_inline());
        assert!(!set.remove(11));
        assert!(set.remove(8));
        assert!(!set.remove(8));
        assert_eq!(inline_after, set.is_inline());
        assert_eq!(vec![7, 10, 9], values_of(&set));
        assert_eq!(Some(&10), set.get_index(1));
        assert_eq!(None, set.get_index(3));
        assert!(!set.is_empty());
    }
    test::<2>(false, false);
    test::<3>(false, true);
    test::<4>(true, true);
}

#[test]
fn default_set_is_empty() {
    let set: SmallSet<2> = SmallSet::default();
    assert!(set.is_empty());
    assert!(set.is_inline());
    let mut iter = set.iter();
    assert_eq!(None, iter.next());
    assert_eq!(None, iter.next_back());
}

#[test]
fn small_set_debug_string_test() {
    let actual = SmallSet::<3>::from_const_unchecked(vec![0, 1, 2]).debug_string();
    let expected = "{0, 1, 2}";
    assert_eq!(expected, actual);
    assert_eq!("{}", SmallSet::<3>::default().debug_string());
}
