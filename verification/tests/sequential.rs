use index_permute::{
    order_by_index_inplace, try_order_by_index_inplace, PermuteError, PermuteIndex,
};

#[test]
fn test_permute_order() {
    let mut data = vec![10, 20, 30];
    let index = PermuteIndex::try_new(&[2, 0, 1]).unwrap();
    assert!(try_order_by_index_inplace(&mut data, index).is_ok());
    assert_eq!(data, vec![30, 10, 20]);
}

#[test]
fn test_drop() {
    struct DropTest {
        value: usize,
    }
    impl Drop for DropTest {
        fn drop(&mut self) {
            println!("Dropping {}", self.value);
        }
    }
    let mut data = vec![
        DropTest { value: 1 },
        DropTest { value: 2 },
        DropTest { value: 3 },
    ];
    let index = PermuteIndex::try_new(&[2, 0, 1]).unwrap();

    // now, there should be no drop
    assert!(try_order_by_index_inplace(&mut data, index).is_ok());
    println!("no drop should happen here");

    assert_eq!(data[0].value, 3);
    assert_eq!(data[1].value, 1);
    assert_eq!(data[2].value, 2);
}

#[test]
fn test_length_mismatch_leaves_data_untouched() {
    let mut data = vec![7, 8, 9, 10];
    let index = PermuteIndex::try_new(&[2, 0, 1]).unwrap();
    let r = try_order_by_index_inplace(&mut data, index);
    assert!(matches!(r, Err(PermuteError::LengthMismatch)));
    assert_eq!(data, vec![7, 8, 9, 10]);
}

#[test]
fn test_identity_index_leaves_data_unchanged() {
    let mut data = vec![5, 6, 7, 8];
    let index = PermuteIndex::try_new(&[0, 1, 2, 3]).unwrap();
    assert!(try_order_by_index_inplace(&mut data, index).is_ok());
    assert_eq!(data, vec![5, 6, 7, 8]);
}

#[test]
fn test_two_disjoint_cycles() {
    let mut data = vec!["d0", "d1", "d2", "d3", "d4"];
    let index = PermuteIndex::try_new(&[1, 0, 2, 4, 3]).unwrap();
    assert!(try_order_by_index_inplace(&mut data, index).is_ok());
    assert_eq!(data, vec!["d1", "d0", "d2", "d4", "d3"]);
}

#[test]
fn test_panicking_wrapper_orders_data() {
    let mut data = vec![10, 20, 30];
    let index = PermuteIndex::try_new(&[2, 0, 1]).unwrap();
    order_by_index_inplace(&mut data, index);
    assert_eq!(data, vec![30, 10, 20]);
}

#[test]
fn test_move_only_elements_each_appear_exactly_once() {
    // a type that can be moved but not cloned or copied
    struct Token(u32);
    let mut data: Vec<Token> = (0..50).map(Token).collect();
    let raw: Vec<usize> = (0..50).map(|i| (i * 7) % 50).collect();
    let index = PermuteIndex::try_new(&raw).unwrap();
    assert!(try_order_by_index_inplace(&mut data, index).is_ok());
    let mut values: Vec<u32> = data.iter().map(|t| t.0).collect();
    values.sort();
    let expected: Vec<u32> = (0..50).collect();
    assert_eq!(values, expected);
    for (i, t) in data.iter().enumerate() {
        assert_eq!(t.0 as usize, (i * 7) % 50);
    }
}
