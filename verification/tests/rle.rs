use blockstore::rle::{
    pack_length, unpack_length, DecodeConsecutiveRuns, EncodeConsecutiveRuns, RleInstruction,
};

fn decode_all<T: Copy>(runs: Vec<(T, u128)>) -> Vec<T> {
    let mut iter = DecodeConsecutiveRuns::new(runs);
    let mut result: Vec<T> = Vec::new();
    while let Some(v) = iter.next() {
        result.push(v);
    }
    result
}

fn encode_all<T: Copy + PartialEq>(items: Vec<T>) -> Vec<(T, u128)> {
    let mut iter = EncodeConsecutiveRuns::new(items);
    let mut result: Vec<(T, u128)> = Vec::new();
    while let Some(run) = iter.next() {
        result.push(run);
    }
    result
}

#[test]
fn decode_consecutive_runs_test_empty() {
    let empty: Vec<(i32, u128)> = vec![];
    let result = decode_all(empty);

    assert_eq!(&result, &[]);
}

#[test]
fn test_single() {
    let runs: Vec<(i32, u128)> = vec![(42, 1)];
    let result = decode_all(runs);

    assert_eq!(&result, &[42]);
}

#[test]
fn test_single_run() {
    let runs: Vec<(i32, u128)> = vec![(42, 12)];
    let result = decode_all(runs);

    assert_eq!(&result, &[42, 42, 42, 42, 42, 42, 42, 42, 42, 42, 42, 42]);
}

#[test]
fn test_twin_runs() {
    let runs: Vec<(i32, u128)> = vec![(42, 2), (7, 10)];
    let result = decode_all(runs);

    assert_eq!(&result, &[42, 42, 7, 7, 7, 7, 7, 7, 7, 7, 7, 7]);
}

#[test]
fn test_extremely_large_run() {
    let runs: Vec<(i32, u128)> = vec![(1, 1), (2, 7000000), (3, 1)];
    let mut iter = DecodeConsecutiveRuns::new(runs);

    assert_eq!(iter.next(), Some(1));
    for _ in 0_i64..7000000 {
        assert_eq!(iter.next(), Some(2));
    }
    assert_eq!(iter.next(), Some(3));
}

#[test]
fn encode_consecutive_runs_test_empty() {
    let empty: Vec<i32> = vec![];
    let result = encode_all(empty);

    assert_eq!(&result, &[]);
}

#[test]
fn test_123() {
    let ott = vec![1, 2, 3];
    let result = encode_all(ott);

    assert_eq!(&result, &[(1, 1), (2, 1), (3, 1)]);
}

#[test]
fn test_medium() {
    let big = vec![
        1, 8, 8, 8, 8, 8, 8, 8, 8, 2, 2, 4, 4, 4, 4, 6, 6, 6, 6, 6, 6, 7, 7, 7, 7, 7, 7, 7, 3, 3,
        3, 5, 5, 5, 5, 5,
    ];
    let result = encode_all(big);

    assert_eq!(
        &result,
        &[(1, 1), (8, 8), (2, 2), (4, 4), (6, 6), (7, 7), (3, 3), (5, 5)]
    );
}

#[test]
fn test_big() {
    let big = vec![7; 7000000];
    let result = encode_all(big);

    assert_eq!(&result, &[(7, 7000000)]);
}

#[test]
fn test_unpack() {
    assert_eq!(RleInstruction::Run(1).unpack(), 1);
    assert_eq!(RleInstruction::Run(7).unpack(), 7);
    assert_eq!(RleInstruction::Run(127).unpack(), 127);
    assert_eq!(RleInstruction::Run(128).unpack(), 1);
    assert_eq!(RleInstruction::Run(129).unpack(), 2);
    assert_eq!(RleInstruction::Run(130).unpack(), 4);
    assert_eq!(RleInstruction::Run(131).unpack(), 8);
    assert_eq!(RleInstruction::Run(255).unpack(), 0b10000000_00000000_00000000_00000000_00000000_00000000_00000000_00000000_00000000_00000000_00000000_00000000_00000000_00000000_00000000_00000000);
}

#[test]
fn test_is_next_value() {
    assert_eq!(true, RleInstruction::NextValue.is_next_value());
    assert_eq!(false, RleInstruction::Run(5).is_next_value());
}

#[test]
fn test_pack() {
    assert_eq!(
        RleInstruction::pack(1),
        vec![RleInstruction::NextValue, RleInstruction::Run(1)]
    );
    assert_eq!(
        RleInstruction::pack(7),
        vec![RleInstruction::NextValue, RleInstruction::Run(7)]
    );
    assert_eq!(
        RleInstruction::pack(127),
        vec![RleInstruction::NextValue, RleInstruction::Run(127)]
    );
    assert_eq!(
        RleInstruction::pack(128),
        vec![RleInstruction::NextValue, RleInstruction::Run(135)]
    );
}

#[test]
fn test_pack_length_exact() {
    assert_eq!(pack_length(1000), (137, 1000 - 512));
    assert_eq!(pack_length(512), (137, 0));
    assert_eq!(pack_length(127), (127, 0));
    assert_eq!(pack_length(1), (1, 0));
}

#[test]
fn test_pack_pieces_sum_back() {
    let pieces = blockstore::rle::pack_length_iter(7000000);
    let mut total: u128 = 0;
    for p in pieces {
        total += unpack_length(p);
    }
    assert_eq!(total, 7000000);
}

#[test]
fn test_encode_decode_round_trip() {
    let original: Vec<u8> = vec![3, 3, 3, 1, 2, 2, 9, 9, 9, 9, 0];
    let encoded = encode_all(original.clone());
    let decoded = decode_all(encoded);
    assert_eq!(original, decoded);
}
