use p3_fri::fold::{
    domain_pair_inverse, domain_point, eval_poly, fold_codeword, fold_pair, inverse_generator,
    log2_exact, pow2_usize, reverse_bits_len, HALF,
};
use p3_fri::field::ORDER;

fn mul(a: u64, b: u64) -> u64 {
    ((a as u128 * b as u128) % ORDER as u128) as u64
}

#[test]
fn half_is_the_inverse_of_two() {
    assert_eq!(mul(2, HALF), 1);
}

#[test]
fn fold_pair_is_even_part_plus_beta_times_odd_part() {
    // even = (3 + 1) / 2 = 2, odd = (3 - 1) / 2 = 1, fold = 2 + 5 * 1
    assert_eq!(fold_pair(3, 1, 5, 1), 7);
    // odd part scaled by the inverse of the point: 2 + 5 * 1 * 4
    assert_eq!(fold_pair(3, 1, 5, 4), 22);
    // a difference below zero wraps around the field order
    assert_eq!(fold_pair(1, 3, 5, 1), ORDER - 3);
    // representatives above the order are reduced
    assert_eq!(fold_pair(ORDER + 3, 1, 5, 1), 7);
}

#[test]
fn fold_of_a_line_is_its_constant_plus_beta_times_its_slope() {
    // f(x) = 5 + 7x on the points 1 and -1
    let codeword = vec![12u64, ORDER - 2];
    assert_eq!(fold_codeword(&codeword, 3), Some(vec![26]));
}

#[test]
fn fold_halves_the_length() {
    let codeword: Vec<u64> = (1..=16).collect();
    let folded = fold_codeword(&codeword, 9).unwrap();
    assert_eq!(folded.len(), 8);
    for i in 0..8 {
        let expected = fold_pair(codeword[2 * i], codeword[2 * i + 1], 9, domain_pair_inverse(4, i));
        assert_eq!(folded[i], expected);
    }
}

#[test]
fn codeword_of_unfit_length_cannot_be_folded() {
    assert_eq!(fold_codeword(&vec![], 1), None);
    assert_eq!(fold_codeword(&vec![1], 1), None);
    assert_eq!(fold_codeword(&vec![1, 2, 3], 1), None);
    assert_eq!(fold_codeword(&vec![1, 2, 3, 4, 5, 6], 1), None);
}

#[test]
fn reverse_bits_len_reverses_the_low_bits() {
    assert_eq!(reverse_bits_len(0, 0), 0);
    assert_eq!(reverse_bits_len(5, 0), 0);
    assert_eq!(reverse_bits_len(1, 3), 4);
    assert_eq!(reverse_bits_len(6, 3), 3);
    assert_eq!(reverse_bits_len(0b1011, 4), 0b1101);
    assert_eq!(reverse_bits_len(0b1_0001, 4), 0b1000);
    assert_eq!(reverse_bits_len(1, 32), 1 << 31);
}

#[test]
fn log2_exact_knows_the_powers_of_two() {
    assert_eq!(log2_exact(0), None);
    assert_eq!(log2_exact(1), Some(0));
    assert_eq!(log2_exact(2), Some(1));
    assert_eq!(log2_exact(3), None);
    assert_eq!(log2_exact(8), Some(3));
    assert_eq!(log2_exact(12), None);
    assert_eq!(log2_exact(1 << 20), Some(20));
    assert_eq!(log2_exact(usize::MAX), None);
}

#[test]
fn pow2_usize_is_two_to_the_k() {
    assert_eq!(pow2_usize(0), 1);
    assert_eq!(pow2_usize(5), 32);
    assert_eq!(pow2_usize(31), 1 << 31);
}

#[test]
fn eval_poly_evaluates_constant_term_first() {
    assert_eq!(eval_poly(&vec![], 9), 0);
    assert_eq!(eval_poly(&vec![5], 9), 5);
    assert_eq!(eval_poly(&vec![5, 7, 11], 2), 63);
    assert_eq!(eval_poly(&vec![0, 1], ORDER - 1), ORDER - 1);
}

#[test]
fn domain_points_are_powers_of_the_generator() {
    assert_eq!(domain_point(0, 0), 1);
    assert_eq!(domain_point(1, 0), 1);
    assert_eq!(domain_point(1, 1), ORDER - 1);
    // entries 2i and 2i + 1 sit at a point and at its negative
    for i in 0..4 {
        let x = domain_point(3, 2 * i);
        assert_eq!(domain_point(3, 2 * i + 1), ORDER - x);
        // the fold of the pair sits at the square
        assert_eq!(domain_point(2, i), mul(x, x));
        assert_eq!(mul(domain_pair_inverse(3, i), x), 1);
    }
}

#[test]
fn inverse_generator_inverts_the_generator() {
    assert_eq!(inverse_generator(0), 1);
    assert_eq!(inverse_generator(1), ORDER - 1);
    for bits in 0..=32 {
        assert_eq!(mul(inverse_generator(bits), domain_point(bits, reverse_bits_len(1, bits))), 1);
    }
}
