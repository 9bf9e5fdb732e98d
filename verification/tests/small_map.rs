use std::cmp::Ordering;

use more_collections::small_map::has_distinct_keys;
use more_collections::OrderedMap;
use more_collections::SmallMap;

/// Builds a map from literal pairs: by inserting them where they fit inline, from an
/// ordered map where they do not.
fn smallmap<V, const C: usize>(pairs: Vec<(usize, V)>) -> SmallMap<V, C> {
    let mut map = SmallMap::<V, C>::new();
    if pairs.len() <= map.inline_capacity() {
        for (key, value) in pairs {
            map.insert(key, value);
        }
        map
    } else {
        SmallMap::from_map(OrderedMap::from_iter(pairs))
    }
}

/// Builds an inline map of exactly the given pairs, which must not repeat a key.
fn smallmap_inline<V, const C: usize>(pairs: Vec<(usize, V)>) -> SmallMap<V, C> {
    assert_eq!(C, pairs.len());
    assert!(
        has_distinct_keys(&pairs),
        "smallmap_inline! cannot be initialized with duplicate keys"
    );
    SmallMap::from_const_unchecked(pairs)
}

fn pairs_of<V: Clone, const C: usize>(map: &SmallMap<V, C>) -> Vec<(usize, V)> {
    let mut out = Vec::new();
    let mut iter = map.iter();
    while let Some((key, value)) = iter.next() {
        out.push((*key, value.clone()));
    }
    out
}

fn into_pairs<V, const C: usize>(map: SmallMap<V, C>) -> Vec<(usize, V)> {
    let mut out = Vec::new();
    let mut iter = map.into_iter();
    while let Some(pair) = iter.next() {
        out.push(pair);
    }
    out
}

fn keys_of<V, const C: usize>(map: &SmallMap<V, C>) -> Vec<usize> {
    let mut out = Vec::new();
    let mut keys = map.keys();
    while let Some(key) = keys.next() {
        out.push(*key);
    }
    out
}

#[test]
fn small_map_test_len_and_inline_capacity() {
    let mut map: SmallMap<usize, 1> = SmallMap::new();
    assert_eq!(0, map.len());
    map.insert(0, 1);
    assert_eq!(1, map.len());

    let map: SmallMap<_, 10> = smallmap(vec![(0, 1), (1, 7), (4, 9)]);
    assert_eq!(3, map.len());
    assert_eq!(10, map.inline_capacity());

    let map: SmallMap<_, 3> = smallmap_inline(vec![(0, 1), (1, 7), (4, 9)]);
    assert_eq!(3, map.len());
    assert_eq!(3, map.inline_capacity());
}

#[test]
fn smallmap_macro_removes_duplicates() {
    let map: SmallMap<_, 10> = smallmap(vec![(0, 1), (0, 2)]);
    assert_eq!(1, map.len());
}

#[test]
fn small_map_iter_iterates_in_insertion_order() {
    fn test<const C: usize>(inline: bool) {
        let inline_map: SmallMap<_, C> = smallmap(vec![(1, 7), (0, 1), (4, 9)]);
        assert_eq!(inline, inline_map.is_inline());
        assert_eq!(
            vec![(1, 7), (0, 1), (4, 9)],
            pairs_of(&inline_map),
            "iter() does not return values in the correct order"
        );
        assert_eq!(
            vec![(1, 7), (0, 1), (4, 9)],
            into_pairs(inline_map),
            "into_iter() does not return values in the correct order"
        );
    }
    test::<1>(false);
    test::<3>(true);
}

#[test]
fn from_map_stores_data_inline_or_on_heap_depending_on_c_and_input_len() {
    let input = OrderedMap::from_iter(vec![(0, "zero"), (3, "three"), (900, "nine-hundred")]);

    let heap_map = SmallMap::<_, 2>::from_map(input.clone());
    assert!(!heap_map.is_inline());

    let inline_map = SmallMap::<_, 3>::from_map(input);
    assert!(inline_map.is_inline());

    assert_eq!(
        vec![(0, "zero"), (3, "three"), (900, "nine-hundred")],
        into_pairs(heap_map)
    );
    assert_eq!(
        vec![(0, "zero"), (3, "three"), (900, "nine-hundred")],
        into_pairs(inline_map)
    );
}

#[test]
fn remove_tests() {
    struct TestCase {
        name: &'static str,
        initial_values: Vec<(usize, &'static str)>,
        remove_key: usize,
        expected_inline_before: bool,
        expected_inline_after: bool,
        expected_values: Vec<(usize, &'static str)>,
        expected_return: Option<(usize, usize, &'static str)>,
    }
    let values = [
        (10, "ten"),
        (5, "five"),
        (86, "eighty-six"),
        (93, "ninety-three"),
        (17, "seven-teen"),
        (1, "one"),
    ];
    let test_cases = [
        TestCase {
            name: "remove key from the middle swaps last item into middle when inline",
            initial_values: values[0..4].to_vec(),
            remove_key: 5,
            expected_inline_before: true,
            expected_inline_after: true,
            expected_values: vec![(10, "ten"), (93, "ninety-three"), (86, "eighty-six")],
            expected_return: Some((1, 5, "five")),
        },
        TestCase {
            name: "remove key from the middle swaps last item into middle when on the heap",
            initial_values: values[0..6].to_vec(),
            remove_key: 5,
            expected_inline_before: false,
            expected_inline_after: false,
            expected_values: vec![
                (10, "ten"),
                (1, "one"),
                (86, "eighty-six"),
                (93, "ninety-three"),
                (17, "seven-teen"),
            ],
            expected_return: Some((1, 5, "five")),
        },
        TestCase {
            name: "remove key from the middle swaps last item into middle when on the heap and moves inline",
            initial_values: values[0..5].to_vec(),
            remove_key: 5,
            expected_inline_before: false,
            expected_inline_after: true,
            expected_values: vec![
                (10, "ten"),
                (17, "seven-teen"),
                (86, "eighty-six"),
                (93, "ninety-three"),
            ],
            expected_return: Some((1, 5, "five")),
        },
        TestCase {
            name: "remove key from the end moves map inline",
            initial_values: values[0..5].to_vec(),
            remove_key: 93,
            expected_inline_before: false,
            expected_inline_after: true,
            expected_values: vec![
                (10, "ten"),
                (5, "five"),
                (86, "eighty-six"),
                (17, "seven-teen"),
            ],
            expected_return: Some((3, 93, "ninety-three")),
        },
        TestCase {
            name: "remove non-existing returns None when inline",
            initial_values: values[0..3].to_vec(),
            remove_key: 94,
            expected_inline_before: true,
            expected_inline_after: true,
            expected_values: vec![(10, "ten"), (5, "five"), (86, "eighty-six")],
            expected_return: None,
        },
        TestCase {
            name: "remove non-existing returns None when on the heap",
            initial_values: values[0..5].to_vec(),
            remove_key: 94,
            expected_inline_before: false,
            expected_inline_after: false,
            expected_values: vec![
                (10, "ten"),
                (5, "five"),
                (86, "eighty-six"),
                (93, "ninety-three"),
                (17, "seven-teen"),
            ],
            expected_return: None,
        },
    ];

    for test_case in test_cases {
        // remove
        let mut small_map = SmallMap::<&str, 4>::new();

        for (k, v) in test_case.initial_values.clone() {
            small_map.insert(k, v);
        }
        assert_eq!(
            test_case.expected_inline_before,
            small_map.is_inline(),
            "inline state before remove() from SmallMap does not match expected in test '{}'",
            test_case.name
        );

        let actual_return_remove = small_map.remove(test_case.remove_key);
        assert_eq!(
            test_case.expected_inline_after,
            small_map.is_inline(),
            "inline state after remove() from SmallMap does not match expected in test '{}'",
            test_case.name
        );
        assert_eq!(
            test_case.expected_return.map(|(_i, _k, v)| v),
            actual_return_remove,
            "return of remove() from SmallMap does not match expected return in test '{}'",
            test_case.name
        );
        assert_eq!(
            test_case.expected_values,
            into_pairs(small_map),
            "values in SmallMap do not match expected values in test after remove() '{}'",
            test_case.name
        );

        // swap remove full
        let mut small_map = SmallMap::<&str, 4>::new();
        for (k, v) in test_case.initial_values {
            small_map.insert(k, v);
        }
        assert_eq!(
            test_case.expected_inline_before,
            small_map.is_inline(),
            "inline state before swap_remove_full() from SmallMap does not match expected in test '{}'",
            test_case.name
        );

        let actual_return_swap_remove_full = small_map.swap_remove_full(test_case.remove_key);

        assert_eq!(
            test_case.expected_inline_after,
            small_map.is_inline(),
            "inline state after swap_remove_full() from SmallMap does not match expected in test '{}'",
            test_case.name
        );
        assert_eq!(
            test_case.expected_return, actual_return_swap_remove_full,
            "return of swap_remove_full() from SmallMap does not match expected return in test '{}'",
            test_case.name
        );
        assert_eq!(
            test_case.expected_values,
            into_pairs(small_map),
            "values in SmallMap do not match expected values in test after swap_remove_full() '{}'",
            test_case.name
        );
    }
}

#[test]
fn small_map_insert_and_insert_full_tests() {
    struct TestCase {
        name: &'static str,
        initial_values: Vec<(usize, &'static str)>,
        insert_key_value: (usize, &'static str),
        expected_inline_before: bool,
        expected_inline_after: bool,
        expected_values: Vec<(usize, &'static str)>,
        expected_return: (usize, Option<&'static str>),
    }
    let values = [
        (10, "ten"),
        (5, "five"),
        (86, "eighty-six"),
        (93, "ninety-three"),
    ];
    let test_cases = [
        TestCase {
            name: "new key/value, stay inline",
            initial_values: values[0..2].to_vec(),
            insert_key_value: (7, "seven"),
            expected_inline_before: true,
            expected_inline_after: true,
            expected_values: vec![(10, "ten"), (5, "five"), (7, "seven")],
            expected_return: (2, None),
        },
        TestCase {
            name: "new key/value, move to heap",
            initial_values: values[0..3].to_vec(),
            insert_key_value: (7, "seven"),
            expected_inline_before: true,
            expected_inline_after: false,
            expected_values: vec![(10, "ten"), (5, "five"), (86, "eighty-six"), (7, "seven")],
            expected_return: (3, None),
        },
        TestCase {
            name: "new key/value, stay on heap",
            initial_values: values[0..4].to_vec(),
            insert_key_value: (7, "seven"),
            expected_inline_before: false,
            expected_inline_after: false,
            expected_values: vec![
                (10, "ten"),
                (5, "five"),
                (86, "eighty-six"),
                (93, "ninety-three"),
                (7, "seven"),
            ],
            expected_return: (4, None),
        },
        TestCase {
            name: "overwrite existing key/value, stay inline",
            initial_values: values[0..3].to_vec(),
            insert_key_value: (5, "fivefivefive"),
            expected_inline_before: true,
            expected_inline_after: true,
            expected_values: vec![(10, "ten"), (5, "fivefivefive"), (86, "eighty-six")],
            expected_return: (1, Some("five")),
        },
        TestCase {
            name: "overwrite existing key/value, stay on heap",
            initial_values: values[0..4].to_vec(),
            insert_key_value: (10, "tententen"),
            expected_inline_before: false,
            expected_inline_after: false,
            expected_values: vec![
                (10, "tententen"),
                (5, "five"),
                (86, "eighty-six"),
                (93, "ninety-three"),
            ],
            expected_return: (0, Some("ten")),
        },
    ];

    for test_case in test_cases {
        let mut small_map_1 = SmallMap::<_, 3>::from_iter(test_case.initial_values);

        let mut small_map_2 = small_map_1.clone();

        for sm in [&small_map_1, &small_map_2] {
            assert_eq!(
                test_case.expected_inline_before,
                sm.is_inline(),
                "inline state before insertion in SmallMap does not match expected in test '{}'",
                test_case.name
            );
        }

        let actual_return_1 =
            small_map_1.insert(test_case.insert_key_value.0, test_case.insert_key_value.1);
        let actual_return_2 =
            small_map_2.insert_full(test_case.insert_key_value.0, test_case.insert_key_value.1);

        assert_eq!(
            test_case.expected_return.1, actual_return_1,
            "return of insertion in SmallMap does not match expected return in test '{}'",
            test_case.name
        );
        assert_eq!(
            test_case.expected_return, actual_return_2,
            "return of insertion in SmallMap does not match expected return in test '{}'",
            test_case.name
        );
        for sm in [small_map_1, small_map_2] {
            assert_eq!(
                test_case.expected_inline_after,
                sm.is_inline(),
                "inline state after insertion in SmallMap does not match expected in test '{}'",
                test_case.name
            );
            assert_eq!(
                test_case.expected_values,
                into_pairs(sm),
                "values in SmallMap do not match expected values in test '{}'",
                test_case.name
            );
        }
    }
}

#[test]
fn small_map_equality_is_consistent() {
    let map1: SmallMap<_, 3> = smallmap(vec![(0, 1), (1, 7), (4, 9)]);
    let map2: SmallMap<_, 3> = smallmap_inline(vec![(0, 1), (1, 7), (4, 9)]);
    let map3 = SmallMap::<_, 3>::from_iter(vec![(0, 1), (1, 7), (4, 9)]);
    let mut map4 = SmallMap::<_, 3>::new();
    map4.insert(0, 1);
    map4.insert(1, 7);
    map4.insert(4, 9);

    assert!(map1 == map2);
    assert!(map1 == map3);
    assert!(map1 == map4);

    assert!(map2 == map3);
    assert!(map2 == map4);

    assert!(map3 == map4);
}

#[test]
fn small_map_empty_small_maps_are_equal() {
    let map1: SmallMap<usize, 3> = smallmap(vec![]);
    let map2: SmallMap<usize, 3> = smallmap(vec![]);
    assert!(map1 == map2);
}

#[test]
fn small_map_partial_eq_only_requires_partial_eq_bound() {
    #[derive(Debug, PartialEq)]
    struct PartialEqType(usize);
    let map1: SmallMap<PartialEqType, 2> = smallmap(vec![]);
    let map2: SmallMap<PartialEqType, 2> = smallmap(vec![]);
    assert!(map1 == map2);
}

fn two_one_three<const C: usize>() -> SmallMap<usize, C> {
    smallmap(vec![(2, 222), (1, 111), (3, 333)])
}

#[test]
fn get_works_with_equal_and_equivalent_keys() {
    fn test<const C: usize>(inline: bool) {
        let map: SmallMap<usize, C> = two_one_three();
        assert_eq!(inline, map.is_inline());

        assert_eq!(Some(&111), map.get(1));
        assert_eq!(Some(&333), map.get(3));
        assert_eq!(None, map.get(7));
    }
    test::<1>(false);
    test::<3>(true);
}

#[test]
fn get_mut_works_with_equal_and_equivalent_keys() {
    fn test<const C: usize>(inline: bool) {
        let mut map: SmallMap<usize, C> = two_one_three();
        assert_eq!(inline, map.is_inline());

        // present
        assert_eq!(Some(&mut 111), map.get_mut(1));

        // not present
        assert_eq!(None, map.get_mut(7));

        let m = map.get_mut(1).unwrap();
        *m = 1;
        assert_eq!(&1, map.get(1).unwrap());

        let m = map.get_mut(1).unwrap();
        *m = 11;
        assert_eq!(&11, map.get(1).unwrap());
    }
    test::<1>(false);
    test::<3>(true);
}

#[test]
fn get_index_test() {
    fn test<const C: usize>(inline: bool) {
        let map: SmallMap<usize, C> = two_one_three();
        assert_eq!(inline, map.is_inline());

        assert_eq!(Some((&2, &222)), map.get_index(0));
        assert_eq!(Some((&1, &111)), map.get_index(1));
        assert_eq!(Some((&3, &333)), map.get_index(2));
        assert_eq!(None, map.get_index(3));
    }
    test::<1>(false);
    test::<3>(true);
}

#[test]
fn get_index_mut_test() {
    fn test<const C: usize>(inline: bool) {
        let mut map: SmallMap<usize, C> = two_one_three();
        assert_eq!(inline, map.is_inline());

        assert_eq!(Some((&2, &mut 222)), map.get_index_mut(0));
        assert_eq!(Some((&1, &mut 111)), map.get_index_mut(1));
        assert_eq!(Some((&3, &mut 333)), map.get_index_mut(2));
        assert_eq!(None, map.get_index_mut(3));

        let (_k, v) = map.get_index_mut(1).unwrap();
        *v = 2;
        assert_eq!(Some((&1, &mut 2)), map.get_index_mut(1));
    }
    test::<1>(false);
    test::<3>(true);
}

#[test]
fn small_map_get_index_of_and_contains_test() {
    fn test<const C: usize>(inline: bool) {
        let map: SmallMap<usize, C> = two_one_three();
        assert_eq!(inline, map.is_inline());

        assert_eq!(None, map.get_index_of(0));
        assert!(!map.contains_key(0));

        assert_eq!(Some(1), map.get_index_of(1));
        assert!(map.contains_key(1));
        assert_eq!(Some(0), map.get_index_of(2));
        assert!(map.contains_key(2));
        assert_eq!(Some(2), map.get_index_of(3));
        assert!(map.contains_key(3));
    }
    test::<1>(false);
    test::<3>(true);
}

#[test]
fn entry_and_modify_test() {
    fn test<const C: usize>(inline: bool) {
        let mut map: SmallMap<usize, C> = two_one_three();
        assert_eq!(inline, map.is_inline());

        // not existing -> no-op
        map.entry(0).and_modify(|x| *x = 100);
        assert_eq!(None, map.get(0));

        // existing -> multiply 111 x 2 = 222
        map.entry(1).and_modify(|x| *x *= 2);
        assert_eq!(Some(&222), map.get(1));
    }
    test::<1>(false);
    test::<3>(true);
}

#[test]
fn entry_or_insert_test() {
    fn test<const C: usize>(inline: bool) {
        let mut map: SmallMap<usize, C> = two_one_three();
        assert_eq!(inline, map.is_inline());

        // not existing -> insert new
        assert_eq!(&777, map.entry(0).or_insert(777));
        assert_eq!(Some(&777), map.get(0));

        // existing -> no-op
        let ret = map.entry(1).or_insert(999);
        assert_eq!(&111, ret);
        *ret += 1;

        assert_eq!(Some(&112), map.get(1));
    }
    test::<1>(false);
    test::<3>(true);
}

#[test]
fn entry_or_insert_with_and_or_default_test() {
    fn test<const C: usize>(inline: bool) {
        let mut map: SmallMap<usize, C> = two_one_three();
        assert_eq!(inline, map.is_inline());

        assert_eq!(&555, map.entry(5).or_insert_with(|| 555));
        assert_eq!(&111, map.entry(1).or_insert_with(|| 999));
        assert_eq!(&0, map.entry(6).or_default());
        assert_eq!(&333, map.entry(3).or_default());
        assert_eq!(
            vec![(2, 222), (1, 111), (3, 333), (5, 555), (6, 0)],
            pairs_of(&map)
        );
    }
    test::<1>(false);
    test::<5>(true);
}

#[test]
fn exact_size_iterator_test() {
    fn test<const C: usize>(inline: bool) {
        let mut map = SmallMap::<usize, C>::new();
        assert_eq!(0, map.iter().len());
        map.insert(10, 0);
        assert!(map.is_inline()); // a map of len <= 1 is always stored inline
        assert_eq!(1, map.iter().len());
        map.insert(11, 0);
        assert_eq!(inline, map.is_inline());
        assert_eq!(2, map.iter().len());
        map.insert(12, 0);
        assert_eq!(3, map.iter().len());
        assert_eq!(inline, map.is_inline());
    }
    test::<1>(false);
    test::<3>(true);
}

#[test]
fn exact_size_into_iterator_test() {
    fn test<const C: usize>(inline: bool) {
        let mut map = SmallMap::<usize, C>::new();
        assert_eq!(0, map.clone().into_iter().len());
        map.insert(10, 0);
        assert!(map.is_inline()); // a map of len <= 1 is always stored inline
        assert_eq!(1, map.clone().into_iter().len());
        map.insert(11, 0);
        assert_eq!(inline, map.is_inline());
        assert_eq!(2, map.clone().into_iter().len());
        map.insert(12, 0);
        assert_eq!(3, map.clone().into_iter().len());
        assert_eq!(inline, map.is_inline());
    }
    test::<1>(false);
    test::<3>(true);
}

#[test]
fn from_iterator_test() {
    fn test<const C: usize>(inline: bool) {
        let data = vec![(2, "hi"), (5, "hello"), (7, "hamburg"), (6, "berlin")];
        let map = SmallMap::<&'static str, C>::from_iter(data.clone());
        assert_eq!(inline, map.is_inline());

        let output = into_pairs(map);
        assert_eq!(data, output);
    }
    test::<1>(false);
    test::<4>(true);
}

#[test]
fn from_iterator_duplicate_keys() {
    // input fits inline, should stay inline
    let data = vec![(0, ()), (1, ()), (0, ())];
    let map = SmallMap::<_, 3>::from_iter(data);

    assert_eq!(2, map.len());
    assert_eq!(vec![0, 1], keys_of(&map));
    assert!(map.is_inline());

    // input doesn't fit inline, but because of duplicates it should move inline
    let data = vec![(0, ()), (1, ()), (0, ()), (1, ())];
    let map = SmallMap::<_, 3>::from_iter(data);

    assert_eq!(2, map.len());
    assert_eq!(vec![0, 1], keys_of(&map));
    assert!(map.is_inline());
}

#[test]
fn binary_search_test() {
    fn find_key(k: usize, target: i32) -> Ordering {
        let k = k as i64;
        let target = target as i64;
        match k {
            x if x == target => Ordering::Equal,
            x if x < target => Ordering::Less,
            _ => Ordering::Greater,
        }
    }
    struct TestCase {
        name: &'static str,
        map: SmallMap<&'static str, 5>,
        key_to_find: i32,
        expected: Result<usize, usize>,
    }
    fn sorted_six() -> SmallMap<&'static str, 5> {
        smallmap(vec![(0, ""), (1, ""), (2, ""), (7, ""), (9, ""), (255, "")])
    }

    let test_cases = [
        TestCase {
            name: "key exists - middle",
            map: sorted_six(),
            key_to_find: 7,
            expected: Ok(3),
        },
        TestCase {
            name: "key exists - first",
            map: sorted_six(),
            key_to_find: 0,
            expected: Ok(0),
        },
        TestCase {
            name: "key exists - last",
            map: sorted_six(),
            key_to_find: 255,
            expected: Ok(5),
        },
        TestCase {
            name: "key doesn't exist - middle",
            map: sorted_six(),
            key_to_find: 8,
            expected: Err(4),
        },
        TestCase {
            name: "key doesn't exist - first",
            map: sorted_six(),
            key_to_find: -1,
            expected: Err(0),
        },
        TestCase {
            name: "key doesn't exist - last",
            map: sorted_six(),
            key_to_find: 65000,
            expected: Err(6),
        },
        TestCase {
            name: "key doesn't exist - empty map",
            map: smallmap(vec![]),
            key_to_find: 65000,
            expected: Err(0),
        },
    ];

    for test_case in test_cases {
        let actual = test_case
            .map
            .binary_search_by(|(&k, _)| find_key(k, test_case.key_to_find));
        assert_eq!(
            test_case.expected, actual,
            "inline test fails '{}'",
            test_case.name
        );

        let inline_map: SmallMap<_, 8> = SmallMap::from_iter(pairs_of(&test_case.map));
        assert!(inline_map.is_inline());
        let actual = inline_map.binary_search_by(|(&k, _)| find_key(k, test_case.key_to_find));
        assert_eq!(
            test_case.expected, actual,
            "inline test fails '{}'",
            test_case.name
        );

        let heap_map: SmallMap<_, 0> = SmallMap::from_iter(into_pairs(test_case.map));
        assert!(
            !heap_map.is_inline() || heap_map.is_empty(),
            "map is not on the heap for test '{}'",
            test_case.name
        );
        let actual = heap_map.binary_search_by(|(&k, _)| find_key(k, test_case.key_to_find));
        assert_eq!(
            test_case.expected, actual,
            "heap test fails '{}'",
            test_case.name
        );
    }
}

#[test]
fn iter_mut_changes_values_in_place() {
    fn test<const C: usize>(inline: bool) {
        let mut map: SmallMap<usize, C> = two_one_three();
        assert_eq!(inline, map.is_inline());
        let mut iter = map.iter_mut();
        assert_eq!(3, iter.len());
        while let Some((key, value)) = iter.next() {
            *value += *key;
        }
        assert_eq!(0, iter.len());
        assert_eq!(vec![(2, 224), (1, 112), (3, 336)], pairs_of(&map));
    }
    test::<1>(false);
    test::<3>(true);
}

#[test]
fn iter_goes_from_both_ends() {
    fn test<const C: usize>(inline: bool) {
        let map: SmallMap<usize, C> = two_one_three();
        assert_eq!(inline, map.is_inline());
        let mut iter = map.iter();
        assert_eq!(Some((&3, &333)), iter.next_back());
        assert_eq!(Some((&2, &222)), iter.next());
        assert_eq!(1, iter.len());
        let copy = iter.clone();
        assert_eq!(Some((&1, &111)), iter.next_back());
        assert_eq!(None, iter.next());
        assert_eq!(None, iter.next_back());
        assert_eq!(1, copy.len());
    }
    test::<1>(false);
    test::<3>(true);
}

#[test]
fn scenario_promotion_and_demotion() {
    let mut map = SmallMap::<String, 3>::new();
    map.insert(0, "zero".to_string());
    map.insert(1, "one".to_string());
    map.insert(2, "two".to_string());
    assert_eq!(3, map.len());
    assert!(map.is_inline());

    map.insert(3, "three".to_string());
    assert_eq!(4, map.len());
    assert!(!map.is_inline());

    assert_eq!(Some("three".to_string()), map.remove(3));
    assert_eq!(3, map.len());
    assert!(map.is_inline());
    assert_eq!(
        vec![
            (0, "zero".to_string()),
            (1, "one".to_string()),
            (2, "two".to_string())
        ],
        into_pairs(map)
    );
}

#[test]
fn inserting_the_same_pair_twice_changes_nothing() {
    fn test<const C: usize>() {
        let mut map: SmallMap<usize, C> = two_one_three();
        assert_eq!((3, None), map.insert_full(9, 99));
        let len = map.len();
        assert_eq!((3, Some(99)), map.insert_full(9, 99));
        assert_eq!(len, map.len());
        assert_eq!(Some(3), map.get_index_of(9));
    }
    test::<1>();
    test::<4>();
    test::<8>();
}

#[test]
fn keys_come_out_in_order_across_promotion() {
    let mut map = SmallMap::<(), 4>::new();
    for key in [40, 30, 20, 10, 50] {
        map.insert(key, ());
    }
    assert!(!map.is_inline());
    assert_eq!(vec![40, 30, 20, 10, 50], keys_of(&map));
    map.remove(40);
    assert!(map.is_inline());
    assert_eq!(4, map.len());
    assert_eq!(vec![50, 30, 20, 10], keys_of(&map));
}

#[test]
fn ordered_map_finds_keys_by_hash() {
    let mut map = OrderedMap::new();
    assert!(map.is_empty());
    assert_eq!((0, None), map.insert_full(7, "seven"));
    assert_eq!((1, None), map.insert_full(3, "three"));
    assert_eq!((2, None), map.insert_full(9, "nine"));
    assert_eq!((0, Some("seven")), map.insert_full(7, "sept"));
    assert_eq!(3, map.len());
    assert_eq!(Some(1), map.get_index_of(3));
    assert_eq!(None, map.get_index_of(4));
    assert!(map.contains_key(9));
    assert_eq!(Some(&"sept"), map.get(7));
    assert_eq!(Some((&9, &"nine")), map.get_index(2));
    *map.get_mut(3).unwrap() = "trois";
    *map.get_index_mut(2).unwrap().1 = "neuf";
    assert_eq!(Some((0, 7, "sept")), map.swap_remove_full(7));
    assert_eq!(None, map.swap_remove_full(7));
    assert_eq!(Some(0), map.get_index_of(9));
    assert_eq!(vec![(9, "neuf"), (3, "trois")], map.clone().into_entries());
    let copy = OrderedMap::from_entries(map.into_entries());
    assert_eq!(Some(1), copy.get_index_of(3));
}

#[test]
fn default_map_is_empty_and_inline() {
    let map: SmallMap<u8, 0> = SmallMap::default();
    assert!(map.is_empty());
    assert!(map.is_inline());
    assert!(!has_distinct_keys(&vec![(1, 'a'), (2, 'b'), (1, 'c')]));
    assert!(has_distinct_keys(&vec![(1, 'a'), (2, 'b'), (3, 'c')]));
}

#[test]
fn small_map_debug_string_test() {
    let map: SmallMap<_, 3> = smallmap_inline(vec![(0, 6), (1, 5), (2, 4)]);
    let actual = map.debug_string();
    let expected = "{0: 6, 1: 5, 2: 4}";
    assert_eq!(expected, actual);

    let empty: SmallMap<u8, 3> = SmallMap::default();
    assert_eq!("{}", empty.debug_string());
    let heap: SmallMap<&str, 1> = smallmap(vec![(7, "x"), (3, "y")]);
    assert_eq!("{7: \"x\", 3: \"y\"}", heap.debug_string());
}

#[test]
fn get_index_trait_test() {
    fn test<const C: usize>(inline: bool) {
        let map: SmallMap<usize, C> = two_one_three();
        assert_eq!(inline, map.is_inline());

        assert_eq!(222, map[0]);
        assert_eq!(111, map[1]);
        assert_eq!(333, map[2]);

        assert_eq!(222, map[&2]);
        assert_eq!(111, map[&1]);
        assert_eq!(333, map[&3]);
    }
    test::<1>(false);
    test::<3>(true);
}

#[test]
fn get_index_mut_trait_test() {
    fn test<const C: usize>(inline: bool) {
        let mut map: SmallMap<usize, C> = two_one_three();
        assert_eq!(inline, map.is_inline());

        assert_eq!(&mut 222, map.index_mut(0));
        assert_eq!(&mut 111, map.index_mut(1));
        assert_eq!(&mut 333, map.index_mut(2));

        *map.index_mut(1) = 2;
        assert_eq!(&mut 2, map.index_mut(1));
    }
    test::<1>(false);
    test::<3>(true);
}
