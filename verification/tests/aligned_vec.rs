use blockstore::block::{
    AlignedBlockFromIterator, AlignedVec, BlockFetch, BlockStore, StorageError,
};

#[test]
pub fn test_index() {
    let v = vec![1, 2, 3, 4, 5, 6, 7, 8];
    let av: AlignedVec<i64, 8> = AlignedVec::new_from(32, v).unwrap();

    assert_eq!(av.fetch(32), 1);
    assert_eq!(av.fetch(36), 5);
    assert_eq!(av.fetch(39), 8);
}

#[test]
pub fn test_write() {
    let v = vec![1, 2, 3, 4, 5, 6, 7, 8];
    let mut av: AlignedVec<i64, 8> = AlignedVec::new_from(32, v).unwrap();

    av.store(36, 500);

    assert_eq!(av.fetch(32), 1);
    assert_eq!(av.fetch(36), 500);
    assert_eq!(av.fetch(39), 8);
}

#[test]
fn test_into_vec() {
    let v1 = vec![5, 3, 7, 9, 1, 1, 90, 3];
    let av: AlignedVec<i64, 8> = AlignedVec::new_from(32, v1.clone()).unwrap();
    let v2 = av.into_vec();

    assert_eq!(v1, v2);
}

#[test]
fn test_wrong_length_rejected() {
    let r: Result<AlignedVec<i64, 8>, StorageError> = AlignedVec::new_from(0, vec![1, 2, 3]);
    assert_eq!(r.err(), Some(StorageError::WrongLength));
}

#[test]
fn test_unaligned_position_rejected() {
    let v = vec![1, 2, 3, 4, 5, 6, 7, 8];
    let r: Result<AlignedVec<i64, 8>, StorageError> = AlignedVec::new_from(33, v);
    assert_eq!(r.err(), Some(StorageError::NotAligned));
}

#[test]
fn test_from_iterator_takes_leading_items() {
    let mut items = vec![10, 20, 30, 40, 50, 60];
    let av: AlignedVec<i32, 4> = AlignedVec::from_iterator(8, &mut items).unwrap();
    assert_eq!(av.fetch(8), 10);
    assert_eq!(av.fetch(11), 40);
    assert_eq!(items, vec![50, 60]);
}

#[test]
fn test_from_iterator_underfull() {
    let mut items = vec![10, 20];
    let r: Result<AlignedVec<i32, 4>, StorageError> = AlignedVec::from_iterator(0, &mut items);
    assert_eq!(r.err(), Some(StorageError::UnderfullGenerator));
    assert_eq!(items, vec![10, 20]);
}
