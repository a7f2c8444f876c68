use blockstore::block::{AlignedBlock, BlockFetch, BlockStore};

#[test]
pub fn test_singleton_usize() {
    let mut x: (usize, &str) = (500, "hello");

    assert_eq!(<(usize, &str) as AlignedBlock>::alignment(), 1);
    assert_eq!(x.position(), 500);
    assert_eq!(x.fetch(500), "hello");
    x.store(500, "world");
    assert_eq!(x.fetch(500), "world");
}

#[test]
pub fn test_singleton_u16() {
    let mut x: (u16, &str) = (500, "hello");

    assert_eq!(<(u16, &str) as AlignedBlock>::alignment(), 1);
    assert_eq!(x.position(), 500);
    assert_eq!(x.fetch(500), "hello");
    x.store(500, "world");
    assert_eq!(x.fetch(500), "world");
}

#[test]
pub fn test_singleton_u32() {
    let mut x: (u32, &str) = (500, "hello");

    assert_eq!(<(u32, &str) as AlignedBlock>::alignment(), 1);
    assert_eq!(x.position(), 500);
    assert_eq!(x.fetch(500), "hello");
    x.store(500, "world");
    assert_eq!(x.fetch(500), "world");
}

#[test]
pub fn test_singleton_u64() {
    let mut x: (u64, &str) = (500, "hello");

    assert_eq!(<(u64, &str) as AlignedBlock>::alignment(), 1);
    assert_eq!(x.position(), 500);
    assert_eq!(x.fetch(500), "hello");
    x.store(500, "world");
    assert_eq!(x.fetch(500), "world");
}

#[test]
pub fn test_singleton_u128() {
    let mut x: (u128, &str) = (500, "hello");

    assert_eq!(<(u128, &str) as AlignedBlock>::alignment(), 1);
    assert_eq!(x.position(), 500);
    assert_eq!(x.fetch(500), "hello");
    x.store(500, "world");
    assert_eq!(x.fetch(500), "world");
}
