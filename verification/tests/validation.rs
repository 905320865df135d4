use index_permute::{PermuteError, PermuteIndex};

#[test]
fn test_generate_swaps() {
    let index = PermuteIndex::try_new(&[2, 0, 1, 4, 3]).unwrap();
    assert_eq!(index.generate_swaps(), vec![(3, 4), (0, 1), (0, 2)]);
}

#[test]
fn test_permute_index() {
    let _ = PermuteIndex::try_new(&[0usize, 2, 1]);
    let vec_data = vec![0, 1, 2];
    let _ = PermuteIndex::try_new(&vec_data);
    let _ = PermuteIndex::try_new(&[0, 1, 2][..]);
}

#[test]
fn test_valid_permutations_are_accepted() {
    assert!(PermuteIndex::try_new(&[]).is_ok());
    assert!(PermuteIndex::try_new(&[0]).is_ok());
    assert!(PermuteIndex::try_new(&[1, 0]).is_ok());
    assert!(PermuteIndex::try_new(&[4, 3, 2, 1, 0]).is_ok());
    assert!(PermuteIndex::try_new(&[0, 1, 2, 3, 4]).is_ok());
}

#[test]
fn test_out_of_range_value_is_rejected() {
    let r = PermuteIndex::try_new(&[3, 0, 1]);
    assert!(matches!(r, Err(PermuteError::InvalidIndex)));
    let r = PermuteIndex::try_new(&[0, 1, 5]);
    assert!(matches!(r, Err(PermuteError::InvalidIndex)));
}

#[test]
fn test_duplicate_value_is_rejected() {
    let r = PermuteIndex::try_new(&[0, 0, 2]);
    assert!(matches!(r, Err(PermuteError::InvalidIndex)));
}

#[test]
fn test_new_unchecked_accepts_a_validated_index() {
    let raw = [2usize, 0, 1];
    assert!(PermuteIndex::try_new(&raw).is_ok());
    let index = PermuteIndex::new_unchecked(&raw);
    let mut data = vec![10, 20, 30];
    assert!(index_permute::try_order_by_index_inplace(&mut data, index).is_ok());
    assert_eq!(data, vec![30, 10, 20]);
}

#[test]
fn test_identity_index_generates_no_swaps() {
    let index = PermuteIndex::try_new(&[0, 1, 2, 3]).unwrap();
    assert!(index.generate_swaps().is_empty());
}

#[test]
fn test_two_cycles_take_exactly_two_swaps() {
    let index = PermuteIndex::try_new(&[1, 0, 2, 4, 3]).unwrap();
    assert_eq!(index.generate_swaps().len(), 2);
}
