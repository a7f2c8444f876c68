use blockstore::bitset::SparseBitset;
use blockstore::block::{BlockFetch, BlockStore};

#[test]
fn test_fetch_store_usize() {
    let mut bs: SparseBitset<usize> = SparseBitset::default();
    bs.store(221, true);

    assert_eq!(bs.fetch(220), false);
    assert_eq!(bs.fetch(221), true);
}

#[test]
fn test_fetch_store_u64() {
    let mut bs: SparseBitset<u64> = SparseBitset::default();
    bs.store(221, true);

    assert_eq!(bs.fetch(220), false);
    assert_eq!(bs.fetch(221), true);
}

#[test]
fn test_fetch_store_u128() {
    let mut bs: SparseBitset<u128> = SparseBitset::default();
    bs.store(221, true);

    assert_eq!(bs.fetch(220), false);
    assert_eq!(bs.fetch(221), true);
}

#[test]
fn test_fresh_bitset_reads_false() {
    let bs: SparseBitset<u64> = SparseBitset::default();
    assert_eq!(bs.fetch(0), false);
    assert_eq!(bs.fetch(63), false);
    assert_eq!(bs.fetch(1_000_000_000_000), false);
    assert_eq!(bs.fetch(u64::MAX), false);
}

#[test]
fn test_bitset_clear_again() {
    let mut bs: SparseBitset<u128> = SparseBitset::default();
    bs.store(5, true);
    assert_eq!(bs.fetch(5), true);
    bs.store(5, false);
    assert_eq!(bs.fetch(5), false);
}

#[test]
fn test_bitset_top_of_domain() {
    let mut bs: SparseBitset<u64> = SparseBitset::default();
    bs.store(u64::MAX, true);
    assert_eq!(bs.fetch(u64::MAX), true);
    assert_eq!(bs.fetch(u64::MAX - 1), false);
}
