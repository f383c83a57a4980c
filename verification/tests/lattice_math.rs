use hswe_implementation::lattice::math::{
    add_vec_mod_q, centered_mod_q, dot_product_mod_q, matrix_vector_mul_mod_q, mod_q,
};

#[test]
fn mod_q_returns_canonical_representatives() {
    assert_eq!(mod_q(0, 17), 0);
    assert_eq!(mod_q(16, 17), 16);
    assert_eq!(mod_q(17, 17), 0);
    assert_eq!(mod_q(20, 17), 3);
    assert_eq!(mod_q(-1, 17), 16);
    assert_eq!(mod_q(-20, 17), 14);
}

#[test]
fn centered_mod_q_uses_short_signed_representatives() {
    let q = 17;

    assert_eq!(centered_mod_q(0, q), 0);
    assert_eq!(centered_mod_q(8, q), 8);
    assert_eq!(centered_mod_q(9, q), -8);
    assert_eq!(centered_mod_q(16, q), -1);
    assert_eq!(centered_mod_q(-1, q), -1);
    assert_eq!(centered_mod_q(-9, q), 8);
}

#[test]
fn vector_addition_reduces_each_coordinate() {
    assert_eq!(add_vec_mod_q(&[16, 4, -2], &[3, 15, 5], 17), vec![2, 2, 3]);
}

#[test]
fn dot_product_reduces_modulo_q() {
    let q = 17;

    // 2*4 + 3*5 + (-1)*6 = 17 = 0 mod 17.
    assert_eq!(dot_product_mod_q(&[2, 3, -1], &[4, 5, 6], q), 0);

    // 16*2 + 4*3 = 44 = 10 mod 17.
    assert_eq!(dot_product_mod_q(&[16, 4], &[2, 3], q), 10);
}

#[test]
fn matrix_vector_multiplication_reduces_each_row() {
    let q = 17;
    let matrix = vec![vec![1, 2, 3], vec![4, 5, 6]];
    let vector = vec![2, 3, 4];

    // Row 1: 1*2 + 2*3 + 3*4 = 20 = 3 mod 17.
    // Row 2: 4*2 + 5*3 + 6*4 = 47 = 13 mod 17.
    assert_eq!(matrix_vector_mul_mod_q(&matrix, &vector, q), vec![3, 13]);
}

#[test]
fn mod_q_of_extreme_values_stays_in_range() {
    assert_eq!(mod_q(i64::MIN, 12_289), i64::MIN.rem_euclid(12_289));
    assert_eq!(mod_q(i64::MAX, 12_289), i64::MAX.rem_euclid(12_289));
    assert_eq!(mod_q(5, 1), 0);
}

#[test]
fn centered_mod_q_for_even_modulus_keeps_half_positive() {
    assert_eq!(centered_mod_q(8, 16), 8);
    assert_eq!(centered_mod_q(9, 16), -7);
    assert_eq!(centered_mod_q(-8, 16), 8);
}

#[test]
fn empty_vectors_have_zero_dot_product_and_empty_sum() {
    assert_eq!(dot_product_mod_q(&[], &[], 17), 0);
    assert_eq!(add_vec_mod_q(&[], &[], 17), Vec::<i64>::new());
}
