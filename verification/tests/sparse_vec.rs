use blockstore::block::{
    AlignedVec, BlockFetch, BlockStore, DefaultValue, SparseVec, StorageError,
};

#[test]
fn test_to_from_vec() {
    let v: Vec<(u32, &str)> = vec![(3, "hello"), (7, "world"), (25, ".")];
    let vv = SparseVec::new_from(DefaultValue, v.clone()).unwrap();
    let vvv = vv.into_vec();

    assert_eq!(v, vvv);
}

#[test]
fn test_out_of_order() {
    let v: Vec<(u32, &str)> = vec![(3, "hello"), (7, "world"), (0, ".")];
    let r = SparseVec::new_from(DefaultValue, v);
    assert_eq!(r.err(), Some(StorageError::NotMonotonic));
}

#[test]
fn sparse_vec_test_push_pop() {
    let v: SparseVec<AlignedVec<u64, 10>, DefaultValue> =
        SparseVec::new_from(DefaultValue, vec![]).unwrap();
    let v = v
        .push_block(AlignedVec::new_from(0, vec![0, 1, 2, 3, 4, 5, 6, 7, 8, 9]).unwrap())
        .unwrap();
    let v = v
        .push_block(
            AlignedVec::new_from(20, vec![20, 21, 22, 23, 24, 25, 26, 27, 28, 29]).unwrap(),
        )
        .unwrap();

    assert_eq!(v.fetch(0), 0);
    assert_eq!(v.fetch(9), 9);
    assert_eq!(v.fetch(10), 0);
    assert_eq!(v.fetch(15), 0);
    assert_eq!(v.fetch(19), 0);
    assert_eq!(v.fetch(20), 20);
    assert_eq!(v.fetch(29), 29);
    assert_eq!(v.fetch(30), 0);

    let (v, rest) = v.pop_block();
    assert_eq!(
        rest.map(|x| x.into_vec()),
        Some(vec![20, 21, 22, 23, 24, 25, 26, 27, 28, 29])
    );

    let (_, rest) = v.pop_block();
    assert_eq!(
        rest.map(|x| x.into_vec()),
        Some(vec![0, 1, 2, 3, 4, 5, 6, 7, 8, 9])
    );
}

#[test]
fn test_sparse_store() {
    let mut v: SparseVec<AlignedVec<u64, 10>, DefaultValue> =
        SparseVec::new_from(DefaultValue, vec![]).unwrap();
    v.store(25, 25);
}

#[test]
fn test_sparse_lazy_materialization() {
    let mut v: SparseVec<AlignedVec<u64, 10>, DefaultValue> =
        SparseVec::new_from(DefaultValue, vec![]).unwrap();
    v.store(25, 25);

    assert_eq!(v.fetch(25), 25);
    assert_eq!(v.fetch(21), 0);

    let blocks = v.into_vec();
    assert_eq!(blocks.len(), 1);
    let block = blocks.into_iter().next().unwrap();
    assert_eq!(block.position(), 20);
    assert_eq!(block.into_vec(), vec![0, 0, 0, 0, 0, 25, 0, 0, 0, 0]);
}

use blockstore::block::AlignedBlock;

#[test]
fn test_sparse_push_gap_then_fetch_defaults() {
    let v: SparseVec<(u64, i64), DefaultValue> = SparseVec::new_from(DefaultValue, vec![]).unwrap();
    let v = v.push_block((0, 10)).unwrap();
    let v = v.push_block((7, 17)).unwrap();

    assert_eq!(v.fetch(0), 10);
    assert_eq!(v.fetch(7), 17);
    assert_eq!(v.fetch(1), 0);
    assert_eq!(v.fetch(6), 0);

    let r = v.push_block((7, 99));
    assert_eq!(r.err(), Some(StorageError::NotMonotonic));
}

#[test]
fn test_sparse_stack_property() {
    let v: SparseVec<(u64, &str), DefaultValue> = SparseVec::new_from(DefaultValue, vec![]).unwrap();
    let v = v.push_block((0, "zero")).unwrap();
    let v = v.push_block((1, "one")).unwrap();
    let v = v.push_block((2, "two")).unwrap();

    let (v, third) = v.pop_block();
    assert_eq!(third, Some((2, "two")));
    let (v, second) = v.pop_block();
    assert_eq!(second, Some((1, "one")));
    let (v, first) = v.pop_block();
    assert_eq!(first, Some((0, "zero")));
    let (_, absent) = v.pop_block();
    assert_eq!(absent, None);
}
