use blockstore::block::{
    AlignedBlock, AlignedVec, BlockFetch, BlockFetchIterator, BlockIndexIterator, BlockStore,
};
use blockstore::numerical_index::NumericalIndex;
use std::sync::Arc;

#[test]
fn test_cow_isolation() {
    let block: Arc<AlignedVec<i64, 8>> =
        Arc::new(AlignedVec::new_from(0, vec![1, 2, 3, 4, 5, 6, 7, 8]).unwrap());
    let mut writer = block.clone();

    writer.store(3, 99);

    assert_eq!(block.fetch(3), 4);
    assert_eq!(writer.fetch(3), 99);
    assert_eq!(writer.fetch(0), 1);
}

#[test]
fn test_shared_reads_are_free() {
    let block: Arc<AlignedVec<i64, 4>> =
        Arc::new(AlignedVec::new_from(4, vec![9, 8, 7, 6]).unwrap());
    let other = block.clone();

    assert_eq!(block.position(), 4);
    assert_eq!(other.fetch(5), block.fetch(5));
}

#[test]
fn test_block_index_iterator() {
    let block: AlignedVec<i64, 4> = AlignedVec::new_from(8, vec![9, 8, 7, 6]).unwrap();
    let mut iter = BlockIndexIterator::new(&block);
    let mut indices: Vec<usize> = Vec::new();
    while let Some(i) = iter.next() {
        indices.push(i);
    }
    assert_eq!(indices, vec![8, 9, 10, 11]);
}

#[test]
fn test_block_fetch_iterator() {
    let block: AlignedVec<i64, 4> = AlignedVec::new_from(8, vec![9, 8, 7, 6]).unwrap();
    let mut iter = BlockFetchIterator::new(&block);
    let mut values: Vec<i64> = Vec::new();
    while let Some(v) = iter.next() {
        values.push(v);
    }
    assert_eq!(values, vec![9, 8, 7, 6]);
}

#[test]
fn test_numerical_index_arithmetic() {
    assert_eq!(37u64.block(10), 30);
    assert_eq!(37u64.modulo(10), 7);
    assert_eq!(37u64.divide(10), 3);
    assert!(0u64.is_zero());
    assert!(!37u64.is_zero());
    assert!(3u64.lt(5));
    assert!(!5u64.lt(5));
    assert_eq!(30u8.range(4), vec![30, 31, 32, 33]);
    assert_eq!(250u128.block(125), 250);
}
