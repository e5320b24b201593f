use trusted_setup::bitrev::{bit_reversal_permutation, reverse_index};
use trusted_setup::error::SetupError;

#[test]
fn reverse_index_on_two_bits() {
    assert_eq!(reverse_index(0, 2), 0);
    assert_eq!(reverse_index(1, 2), 2);
    assert_eq!(reverse_index(2, 2), 1);
    assert_eq!(reverse_index(3, 2), 3);
}

#[test]
fn reverse_index_on_other_widths() {
    assert_eq!(reverse_index(0, 0), 0);
    assert_eq!(reverse_index(7, 0), 0);
    assert_eq!(reverse_index(1, 1), 1);
    assert_eq!(reverse_index(1, 3), 4);
    assert_eq!(reverse_index(3, 3), 6);
    assert_eq!(reverse_index(6, 3), 3);
    assert_eq!(reverse_index(1, 12), 2048);
    assert_eq!(reverse_index(0b1011, 4), 0b1101);
    assert_eq!(reverse_index(0b11_0001, 4), 0b1000);
}

#[test]
fn reverse_index_is_an_involution_below_the_width() {
    let mut i: usize = 0;
    while i < 256 {
        assert_eq!(reverse_index(reverse_index(i, 8), 8), i);
        i += 1;
    }
}

#[test]
fn permutation_of_four() {
    let input: Vec<u32> = vec![10, 11, 12, 13];
    assert_eq!(bit_reversal_permutation(&input, 4), Ok(vec![10, 12, 11, 13]));
}

#[test]
fn permutation_of_eight() {
    let input: Vec<u32> = vec![0, 1, 2, 3, 4, 5, 6, 7];
    assert_eq!(bit_reversal_permutation(&input, 8), Ok(vec![0, 4, 2, 6, 1, 5, 3, 7]));
}

#[test]
fn permutation_of_one_and_of_none() {
    let one: Vec<u32> = vec![9];
    assert_eq!(bit_reversal_permutation(&one, 1), Ok(vec![9]));
    let none: Vec<u32> = vec![];
    assert_eq!(bit_reversal_permutation(&none, 4), Ok(vec![]));
}

#[test]
fn permutation_twice_is_identity_on_full_width() {
    let input: Vec<u64> = (0..64u64).map(|x| x * x + 1).collect();
    let once = bit_reversal_permutation(&input, 64).unwrap();
    assert_ne!(once, input);
    let twice = bit_reversal_permutation(&once, 64).unwrap();
    assert_eq!(twice, input);
}

#[test]
fn permutation_keeps_every_item_once() {
    let input: Vec<u32> = (0..32u32).collect();
    let mut out = bit_reversal_permutation(&input, 32).unwrap();
    out.sort();
    assert_eq!(out, input);
}

#[test]
fn permutation_of_a_closed_partial_domain() {
    let input: Vec<u32> = vec![0, 1, 2];
    assert_eq!(bit_reversal_permutation(&input, 4), Ok(vec![0, 2, 1]));
}

#[test]
fn permutation_refuses_a_partial_domain_that_is_not_closed() {
    let input: Vec<u32> = vec![0, 1, 2, 3, 4];
    assert_eq!(bit_reversal_permutation(&input, 8), Err(SetupError::PermutationWidthMismatch));
}

#[test]
fn permutation_refuses_a_width_that_is_no_power_of_two() {
    let input: Vec<u32> = vec![0, 1, 2];
    assert_eq!(bit_reversal_permutation(&input, 3), Err(SetupError::PermutationWidthMismatch));
    assert_eq!(bit_reversal_permutation(&input, 0), Err(SetupError::PermutationWidthMismatch));
    assert_eq!(
        bit_reversal_permutation(&input, usize::MAX),
        Err(SetupError::PermutationWidthMismatch)
    );
}

#[test]
fn permutation_refuses_more_items_than_slots() {
    let input: Vec<u32> = vec![0, 1, 2, 3, 4];
    assert_eq!(bit_reversal_permutation(&input, 4), Err(SetupError::PermutationWidthMismatch));
}
