use blockstore::block::{AlignedVec, BlockFetch, BlockStore, DenseVec, StorageError};

#[test]
pub fn test_from_into_vec() {
    let v: Vec<(usize, &str)> = vec![(0, "hello"), (1, "world"), (2, "!")];
    let vv = DenseVec::new_from(v.clone()).unwrap();
    let vvv = vv.into_vec();

    assert_eq!(v, vvv);
}

#[test]
pub fn test_construct_malformed() {
    let v: Vec<(usize, &str)> = vec![(0, "hello"), (3, "world"), (2, "!")];
    let r = DenseVec::new_from(v);
    assert_eq!(r.err(), Some(StorageError::NotDenselyPacked));
}

#[test]
pub fn test_push_into_empty() {
    let v: DenseVec<(usize, &str)> = DenseVec::new_from(vec![]).unwrap();
    let v = v.push_block((0, "hello")).unwrap();
    let v = v.push_block((1, "world")).unwrap();
    let v = v.push_block((2, ".")).unwrap();

    let (v, a) = v.pop_block();
    assert_eq!(a, Some((2, ".")));
    let (v, b) = v.pop_block();
    assert_eq!(b, Some((1, "world")));
    let (v, c) = v.pop_block();
    assert_eq!(c, Some((0, "hello")));

    let (_v, empty) = v.pop_block();
    assert_eq!(empty, None);
}

#[test]
pub fn test_bad_push() {
    let v: DenseVec<(usize, &str)> = DenseVec::new_from(vec![]).unwrap();
    let r = v.push_block((1, "hello"));
    assert_eq!(r.err(), Some(StorageError::NotDenselyPacked));
}

#[test]
pub fn test_set_and_get() {
    let v: DenseVec<AlignedVec<i16, 16>> = DenseVec::new_from(vec![]).unwrap();
    let v = v
        .push_block(
            AlignedVec::new_from(0, vec![0, 1, 2, 3, 4, 5, 6, 7, 8, 9, 10, 11, 12, 13, 14, 15])
                .unwrap(),
        )
        .unwrap();
    let mut v = v
        .push_block(
            AlignedVec::new_from(
                16,
                vec![16, 17, 18, 19, 20, 21, 22, 23, 24, 25, 26, 27, 28, 29, 30, 31],
            )
            .unwrap(),
        )
        .unwrap();

    assert_eq!(v.fetch(7), 7);
    assert_eq!(v.fetch(17), 17);

    v.store(17, 1070);
    v.store(0, 1000);
    v.store(7, 1007);
    v.store(15, 1015);
    v.store(31, 1031);
    v.store(16, 1016);

    assert_eq!(v.fetch(17), 1070);
    assert_eq!(v.fetch(0), 1000);
    assert_eq!(v.fetch(7), 1007);
    assert_eq!(v.fetch(15), 1015);
    assert_eq!(v.fetch(31), 1031);
    assert_eq!(v.fetch(16), 1016);
}

#[test]
fn test_dense_untouched_slots_unaffected() {
    let v: DenseVec<AlignedVec<i16, 16>> = DenseVec::new_from(vec![]).unwrap();
    let v = v
        .push_block(
            AlignedVec::new_from(0, vec![0, 1, 2, 3, 4, 5, 6, 7, 8, 9, 10, 11, 12, 13, 14, 15])
                .unwrap(),
        )
        .unwrap();
    let mut v = v
        .push_block(
            AlignedVec::new_from(
                16,
                vec![16, 17, 18, 19, 20, 21, 22, 23, 24, 25, 26, 27, 28, 29, 30, 31],
            )
            .unwrap(),
        )
        .unwrap();

    v.store(17, 1070);
    v.store(0, 1000);

    assert_eq!(v.fetch(1), 1);
    assert_eq!(v.fetch(16), 16);
    assert_eq!(v.fetch(18), 18);
    assert_eq!(v.fetch(31), 31);
}
