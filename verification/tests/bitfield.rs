use blockstore::block::{
    AlignedBitfield, AlignedBlock, AlignedBlockFromIterator, BlockFetch, BlockStore, StorageError,
};

#[test]
fn test_bitfield_usize() {
    assert_eq!(
        <AlignedBitfield<usize> as AlignedBlock>::alignment(),
        8 * std::mem::size_of::<usize>()
    );

    let b = AlignedBitfield::<usize>::from_bits(128, 0).unwrap();
    assert_eq!(b.position(), 128);
    assert_eq!(b.fetch(130), false);
}

#[test]
fn test_bitfield_u64() {
    assert_eq!(
        <AlignedBitfield<u64> as AlignedBlock>::alignment() as usize,
        8 * std::mem::size_of::<u64>()
    );

    let b = AlignedBitfield::<u64>::from_bits(128, 0).unwrap();
    assert_eq!(b.position(), 128);
    assert_eq!(b.fetch(130), false);
}

#[test]
fn test_bitfield_usize_set() {
    assert_eq!(
        <AlignedBitfield<usize> as AlignedBlock>::alignment(),
        8 * std::mem::size_of::<usize>()
    );
    assert!(
        std::mem::size_of::<usize>() == 4 || std::mem::size_of::<usize>() == 8,
        "expecting either 32 bit or 64 bit usize"
    );

    let mut b = AlignedBitfield::<usize>::from_bits(128, 0).unwrap();
    b.store(130, true);
    b.store(128, true);
    b.store(140, true);
    b.store(128, false);

    if std::mem::size_of::<usize>() == 8 {
        b.store(191, true);
    }

    assert_eq!(b.fetch(128), false);
    assert_eq!(b.fetch(129), false);
    assert_eq!(b.fetch(130), true);
    assert_eq!(b.fetch(131), false);
    assert_eq!(b.fetch(135), false);
    assert_eq!(b.fetch(140), true);
    assert_eq!(b.fetch(145), false);

    if std::mem::size_of::<usize>() == 8 {
        assert_eq!(b.fetch(191), true);
    }
}

#[test]
fn test_bitfield_u64_set() {
    assert_eq!(<AlignedBitfield<usize> as AlignedBlock>::alignment(), 64);

    let mut b = AlignedBitfield::<u64>::from_bits(128, 0).unwrap();
    b.store(130, true);
    b.store(128, true);
    b.store(140, true);
    b.store(191, true);
    b.store(128, false);

    assert_eq!(b.fetch(128), false);
    assert_eq!(b.fetch(129), false);
    assert_eq!(b.fetch(130), true);
    assert_eq!(b.fetch(131), false);
    assert_eq!(b.fetch(135), false);
    assert_eq!(b.fetch(140), true);
    assert_eq!(b.fetch(145), false);
    assert_eq!(b.fetch(191), true);
}

#[test]
fn test_bitfield_unaligned_rejected() {
    let r = AlignedBitfield::<u64>::from_bits(130, 0);
    assert_eq!(r.err(), Some(StorageError::NotAligned));
}

#[test]
fn test_bitfield_from_iterator() {
    let mut bits = vec![false; 64];
    bits[3] = true;
    bits[63] = true;
    let b = AlignedBitfield::<u64>::from_iterator(64, &mut bits).unwrap();
    assert!(bits.is_empty());
    assert_eq!(b.fetch(64), false);
    assert_eq!(b.fetch(67), true);
    assert_eq!(b.fetch(127), true);
    assert_eq!(b.fetch(126), false);
}

#[test]
fn test_bitfield_from_iterator_underfull() {
    let mut bits = vec![true; 10];
    let r = AlignedBitfield::<u64>::from_iterator(0, &mut bits);
    assert_eq!(r.err(), Some(StorageError::UnderfullGenerator));
    assert_eq!(bits.len(), 10);
}
