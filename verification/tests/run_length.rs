use blockstore::rle::Rle;

#[test]
pub fn run_length_encoding_test_push_pop() {
    let mut rle = Rle::default();
    rle.push_run(("a", 50));
    rle.push_run(("b", 25));

    assert_eq!(rle.pop_run(), Some(("b", 25)));
    assert_eq!(rle.pop_run(), Some(("a", 50)));
    assert_eq!(rle.pop_run(), None);
}

#[test]
pub fn test_append_pop() {
    let mut rle = Rle::default();
    rle.append_run(("a", 50));
    rle.append_run(("b", 15));
    rle.append_run(("b", 10));

    assert_eq!(rle.pop_run(), Some(("b", 25)));
    assert_eq!(rle.pop_run(), Some(("a", 50)));
    assert_eq!(rle.pop_run(), None);
}

#[test]
pub fn test_append_pop_large() {
    let mut rle = Rle::default();
    rle.append_run(("a", 50_000_000));
    rle.append_run(("b", 15_000_000));
    rle.append_run(("b", 10_000_000));

    assert_eq!(rle.pop_run(), Some(("b", 25_000_000)));
    assert_eq!(rle.pop_run(), Some(("a", 50_000_000)));
    assert_eq!(rle.pop_run(), None);
}

#[test]
pub fn test_extend_pop() {
    let mut rle = Rle::default();
    rle.extend(vec![
        "a", "a", "a", "a", "a", "a", "b", "a", "a", "a", "b", "b", "b",
    ]);
    assert_eq!(
        vec![("a", 6), ("b", 1), ("a", 3), ("b", 3)],
        rle.run_iterator()
    );
}

#[test]
fn test_rle_iterator_values() {
    let mut rle = Rle::default();
    rle.extend(vec![3u8, 3, 3, 1, 2, 2]);
    let mut iter = rle.iterator();
    let mut decoded: Vec<u8> = Vec::new();
    while let Some(v) = iter.next() {
        decoded.push(v);
    }
    assert_eq!(decoded, vec![3, 3, 3, 1, 2, 2]);
}

#[test]
fn test_rle_huge_run_is_compact() {
    let mut rle = Rle::default();
    rle.push_run((1u8, 1u128 << 100));
    rle.push_run((2u8, 3));

    assert_eq!(rle.pop_run(), Some((2u8, 3)));
    assert_eq!(rle.pop_run(), Some((1u8, 1u128 << 100)));
    assert_eq!(rle.pop_run(), None);
}
