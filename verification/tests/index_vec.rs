use more_collections::IndexVec;

#[test]
fn index_vec_holds_values_by_index() {
    let mut vec: IndexVec<usize, &str> = IndexVec::new();
    assert!(vec.is_empty());
    assert_eq!(0, vec.len());
    assert_eq!(None, vec.get(0));
    assert_eq!(None, vec.pop());

    let mut vec: IndexVec<usize, &str> = IndexVec::from_elem("x", 3);
    assert_eq!(3, vec.len());
    assert!(vec.capacity() >= 3);
    assert!(!vec.is_empty());
    assert!(vec.contains_key(2));
    assert!(!vec.contains_key(3));
    assert_eq!(Some(&"x"), vec.get(1));
    *vec.get_mut(1).unwrap() = "y";
    assert_eq!(None, vec.get_mut(3));
    assert_eq!(Some((2, "x")), vec.pop());
    assert_eq!(Some((1, "y")), vec.pop());
    assert_eq!(1, vec.len());
    vec.reserve(10);
    assert!(vec.capacity() >= 11);
    assert_eq!(1, vec.len());
    vec.clear();
    assert!(vec.is_empty());

    let vec: IndexVec<usize, u8> = IndexVec::with_capacity(7);
    assert!(vec.capacity() >= 7);
    assert_eq!(0, vec.len());
}

#[test]
fn index_vec_iter_pairs_each_value_with_its_key() {
    let vec: IndexVec<usize, char> = IndexVec::from_elem('z', 2);
    let mut iter = vec.iter();
    assert_eq!(Some((0, &'z')), iter.next());
    let mut rest = iter.clone();
    assert_eq!(Some((1, &'z')), iter.next());
    assert_eq!(None, iter.next());
    assert_eq!(Some((1, &'z')), rest.next());
}
