use more_collections::vec_map::dense::identity;
use more_collections::vec_map::dense::DenseVecMap;

#[test]
fn test() {
    let map: DenseVecMap<usize, usize> = DenseVecMap::with_capacity(7);
    assert_eq!(7, map.capacity());
}

#[test]
fn dense_map_fills_its_slots() {
    let mut map: DenseVecMap<usize, u8> = DenseVecMap::new();
    assert_eq!(0, map.capacity());
    map.reserve(3);
    assert_eq!(3, map.capacity());
    map.clear();
    assert_eq!(3, map.capacity());

    let map: DenseVecMap<usize, char> = DenseVecMap::from_elem('c', 4);
    assert_eq!(4, map.capacity());
    assert_eq!(5, identity(5));
}
