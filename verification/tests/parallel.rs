use index_permute::{
    try_order_by_index_inplace, try_order_by_index_parallel_inplace,
    try_order_by_index_parallel_inplace_with_threads, PermuteError, PermuteIndex,
};

#[test]
fn test_order_by_index_parallel() {
    let mut data = (0..1000).collect::<Vec<_>>();
    let index_vec = (0..1000).rev().collect::<Vec<_>>();
    let index = PermuteIndex::try_new(&index_vec).unwrap();
    assert!(try_order_by_index_parallel_inplace(&mut data, index).is_ok());
    assert_eq!(data, (0..1000).rev().collect::<Vec<_>>());
}

#[test]
fn test_order_by_index_drop() {
    struct DropTest {
        value: usize,
    }
    impl Drop for DropTest {
        fn drop(&mut self) {
            println!("{}", self.value);
        }
    }
    let test_size = 10001;
    let mut data = (0..test_size)
        .map(|i| DropTest { value: i })
        .collect::<Vec<_>>();
    let index_vec = (0..test_size).rev().collect::<Vec<_>>();
    let index = PermuteIndex::try_new(&index_vec).unwrap();

    // now, there should be no drop
    try_order_by_index_parallel_inplace_with_threads(&mut data, index, 4).unwrap();
    println!("no drop should happen here");

    for i in 0..test_size {
        assert_eq!(data[i].value, test_size - 1 - i);
    }
}

fn scrambled_index(len: usize) -> Vec<usize> {
    // a permutation with varied cycle structure
    let mut raw: Vec<usize> = (0..len).collect();
    let mut a = 0;
    let mut b = len - 1;
    while a < b {
        raw.swap(a, b);
        a += 2;
        b -= 1;
    }
    raw
}

#[test]
fn test_parallel_matches_sequential_below_threshold() {
    let len = 100;
    let raw = scrambled_index(len);
    let index = PermuteIndex::try_new(&raw).unwrap();
    let mut sequential: Vec<usize> = (0..len).map(|v| v * 3 + 1).collect();
    let mut parallel = sequential.clone();
    assert!(try_order_by_index_inplace(&mut sequential, index).is_ok());
    let index = PermuteIndex::try_new(&raw).unwrap();
    assert!(try_order_by_index_parallel_inplace_with_threads(&mut parallel, index, 4).is_ok());
    assert_eq!(sequential, parallel);
}

#[test]
fn test_parallel_matches_sequential_above_threshold() {
    let len = 12000;
    let raw = scrambled_index(len);
    let index = PermuteIndex::try_new(&raw).unwrap();
    let mut sequential: Vec<usize> = (0..len).map(|v| v * 3 + 1).collect();
    let mut parallel = sequential.clone();
    assert!(try_order_by_index_inplace(&mut sequential, index).is_ok());
    let index = PermuteIndex::try_new(&raw).unwrap();
    assert!(try_order_by_index_parallel_inplace_with_threads(&mut parallel, index, 4).is_ok());
    assert_eq!(sequential, parallel);
}

#[test]
fn test_parallel_with_default_threads_above_threshold() {
    let len = 10002;
    let raw = scrambled_index(len);
    let index = PermuteIndex::try_new(&raw).unwrap();
    let mut data: Vec<usize> = (0..len).collect();
    assert!(try_order_by_index_parallel_inplace(&mut data, index).is_ok());
    for i in 0..len {
        assert_eq!(data[i], raw[i]);
    }
}

#[test]
fn test_parallel_length_mismatch_leaves_data_untouched() {
    let len = 10500;
    let raw = scrambled_index(len);
    let index = PermuteIndex::try_new(&raw).unwrap();
    let mut data: Vec<usize> = (0..len + 1).collect();
    let r = try_order_by_index_parallel_inplace_with_threads(&mut data, index, 4);
    assert!(matches!(r, Err(PermuteError::LengthMismatch)));
    let expected: Vec<usize> = (0..len + 1).collect();
    assert_eq!(data, expected);
}

#[test]
fn test_parallel_single_thread_falls_back_to_sequential() {
    let mut data = vec![10, 20, 30];
    let index = PermuteIndex::try_new(&[2, 0, 1]).unwrap();
    assert!(try_order_by_index_parallel_inplace_with_threads(&mut data, index, 1).is_ok());
    assert_eq!(data, vec![30, 10, 20]);
}
