use blockstore::sort::Pair;

#[test]
fn test_len() {
    let a = vec![1, 2, 3, 4, 5];
    let b = vec![1, 2, 3, 4, 5, 6, 7, 8];

    let pair = Pair::default().first(a).second(b);

    assert_eq!(pair.len(), 13);
}

#[test]
fn test_get() {
    let a = vec![1, 2, 3, 4, 5];
    let b = vec![10, 20, 30, 40, 50, 60, 70, 80];

    let pair = Pair::default().first(a).second(b);

    assert_eq!(pair.get(0), &1);
    assert_eq!(pair.get(3), &4);
    assert_eq!(pair.get(4), &5);
    assert_eq!(pair.get(5), &10);
    assert_eq!(pair.get(8), &40);
    assert_eq!(pair.get(12), &80);
}

#[test]
fn test_get_mut() {
    let a = vec![1, 2, 3, 4, 5];
    let b = vec![10, 20, 30, 40, 50, 60, 70, 80];

    let mut pair = Pair::default().first(a).second(b);

    *pair.get_mut(2) = -1;
    *pair.get_mut(8) = -1;
    assert_eq!(
        pair.iter(),
        vec![1, 2, -1, 4, 5, 10, 20, 30, -1, 50, 60, 70, 80]
    );
}

#[test]
fn test_swap() {
    let a = vec![1, 2, 3, 4, 5];
    let b = vec![10, 20, 30, 40, 50];

    let mut pair = Pair::default().first(a).second(b);

    pair.swap(2, 7);

    assert_eq!(pair.iter(), vec![1, 2, 30, 4, 5, 10, 20, 3, 40, 50]);
}

#[test]
fn test_reverse_swap() {
    let a = vec![1, 2, 3, 4, 5];
    let b = vec![10, 20, 30, 40, 50];

    let mut pair = Pair::default().first(a).second(b);

    pair.swap(7, 2);

    assert_eq!(pair.iter(), vec![1, 2, 30, 4, 5, 10, 20, 3, 40, 50]);
}

#[test]
fn test_swap_within_one_half() {
    let a = vec![1, 2, 3];
    let b = vec![10, 20, 30];

    let mut pair = Pair::new(a, b);
    pair.swap(0, 2);
    pair.swap(3, 5);

    assert_eq!(pair.iter(), vec![3, 2, 1, 30, 20, 10]);
}
