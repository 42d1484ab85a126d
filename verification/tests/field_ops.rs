//! Exact-value tests for the modular field arithmetic underneath the group
//! operations, in the field of 17 elements.

use sw_projective::field::{add_mod, batch_invert, inv_mod, mul_mod, neg_mod, sub_mod};

#[test]
fn reduced_arithmetic() {
    assert_eq!(add_mod(9, 12, 17), 4);
    assert_eq!(add_mod(0, 0, 17), 0);
    assert_eq!(sub_mod(3, 12, 17), 8);
    assert_eq!(sub_mod(12, 3, 17), 9);
    assert_eq!(mul_mod(6, 9, 17), 3);
    assert_eq!(mul_mod(16, 16, 17), 1);
    assert_eq!(neg_mod(0, 17), 0);
    assert_eq!(neg_mod(5, 17), 12);
}

#[test]
fn arithmetic_near_the_word_size() {
    // the largest prime below 2^64 keeps every intermediate inside 128 bits
    let p: u64 = 18446744073709551557;
    assert_eq!(add_mod(p - 1, p - 1, p), p - 2);
    assert_eq!(mul_mod(p - 1, p - 1, p), 1);
    assert_eq!(sub_mod(0, p - 1, p), 1);
}

#[test]
fn single_inverse() {
    assert_eq!(inv_mod(2, 17), 9);
    assert_eq!(inv_mod(1, 17), 1);
    assert_eq!(inv_mod(16, 17), 16);
    for a in 1..17u64 {
        let i = inv_mod(a, 17);
        assert_eq!(mul_mod(a, i, 17), 1);
    }
}

#[test]
fn batch_inverse_skips_zeros() {
    let zs: Vec<u64> = vec![2, 0, 3, 16, 0, 1];
    let invs = batch_invert(&zs, 17);
    assert_eq!(invs, vec![9, 0, 6, 16, 0, 1]);
}

#[test]
fn batch_inverse_of_empty_and_all_zero_inputs() {
    let empty: Vec<u64> = Vec::new();
    assert!(batch_invert(&empty, 17).is_empty());
    let zeros: Vec<u64> = vec![0, 0, 0];
    assert_eq!(batch_invert(&zeros, 17), vec![0, 0, 0]);
}
