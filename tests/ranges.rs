use mft::ranges::{Ranges, RangesError};

#[test]
fn it_works_with_single_number() {
    let ranges = Ranges::from_str("1").unwrap();
    assert_eq!(ranges.0, vec![1..=1]);
}

#[test]
fn it_works_with_a_range() {
    let ranges = Ranges::from_str("1-5").unwrap();
    assert_eq!(ranges.0, vec![1..=5]);
}

#[test]
fn it_works_with_a_range_and_a_number() {
    let ranges = Ranges::from_str("1-5,8").unwrap();
    assert_eq!(ranges.0, vec![1..=5, 8..=8]);
}

#[test]
fn it_works_with_a_number_and_a_range() {
    let ranges = Ranges::from_str("1-5,8").unwrap();
    assert_eq!(ranges.0, vec![1..=5, 8..=8]);
}

#[test]
fn it_works_with_more_than_2_number_and_a_range() {
    let ranges = Ranges::from_str("1-5,8,10-19").unwrap();
    assert_eq!(ranges.0, vec![1..=5, 8..=8, 10..=19]);
}

#[test]
fn it_works_with_two_ranges() {
    let ranges = Ranges::from_str("1-10,20-25").unwrap();
    assert_eq!(ranges.0, vec![1..=10, 20..=25]);
}

#[test]
fn it_errors_on_a_random_string() {
    let ranges = Ranges::from_str("hello");
    assert!(ranges.is_err())
}

#[test]
fn it_errors_on_a_range_with_too_many_dashes() {
    let ranges = Ranges::from_str("1-5-8");
    assert!(ranges.is_err())
}

#[test]
fn too_many_dashes_is_reported_as_such() {
    assert_eq!(Ranges::from_str("1-5-8").err(), Some(RangesError::TooManyDashes));
}

#[test]
fn a_bad_bound_is_an_invalid_number() {
    assert_eq!(Ranges::from_str("1-x").err(), Some(RangesError::InvalidNumber));
    assert_eq!(Ranges::from_str("").err(), Some(RangesError::InvalidNumber));
    assert_eq!(Ranges::from_str("3,").err(), Some(RangesError::InvalidNumber));
    assert_eq!(Ranges::from_str("-").err(), Some(RangesError::InvalidNumber));
}

#[test]
fn the_first_bad_piece_decides_the_error() {
    assert_eq!(Ranges::from_str("x,1-2-3").err(), Some(RangesError::InvalidNumber));
    assert_eq!(Ranges::from_str("1-2-3,x").err(), Some(RangesError::TooManyDashes));
}

#[test]
fn numbers_take_a_plus_sign_and_reject_overflow() {
    assert_eq!(Ranges::from_str("+7").unwrap().0, vec![7..=7]);
    assert!(Ranges::from_str("+").is_err());
    assert!(Ranges::from_str("99999999999999999999999").is_err());
    let max = format!("0-{}", usize::MAX);
    assert_eq!(Ranges::from_str(&max).unwrap().0, vec![0..=usize::MAX]);
}

#[test]
fn chain_lists_every_entry_in_order() {
    let ranges = Ranges::from_str("1-3,8,5-6").unwrap();
    assert_eq!(ranges.chain(), vec![1, 2, 3, 8, 5, 6]);
}

#[test]
fn chain_skips_a_reversed_range() {
    let ranges = Ranges::from_str("4-2,9").unwrap();
    assert_eq!(ranges.chain(), vec![9]);
}
