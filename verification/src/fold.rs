//! The folding arithmetic of the commit phase.
//!
//! A codeword of length `2^n` lists the evaluations of a polynomial over the
//! subgroup of order `2^n` in bit-reversed order: entry `i` is the value at
//! `g^rev(i)`, with `g` the generator of that subgroup. Entries `2i` and
//! `2i + 1` are then the values at a point `x` and at `-x`, and one fold
//! replaces each such pair by the value at `x^2` of
//! `f_even + beta * f_odd`.

use vstd::arithmetic::power2::{
    lemma2_to64,
    lemma_pow2_pos,
    lemma_pow2_strictly_increases,
    lemma_pow2_unfold,
    pow2,
};
use vstd::bits::{lemma_usize_pow2_no_overflow, lemma_usize_shl_is_mul};
use vstd::prelude::*;

use crate::field::{
    fadd,
    field_add,
    field_mul,
    field_pow,
    field_sub,
    field_try_inverse,
    finv,
    fmul,
    fpow,
    fsub,
    generator,
    is_inverse,
    lemma_inverse_is_finv,
    two_adic_generator,
    ORDER,
    TWO_ADICITY,
};

verus! {

/// One half as a field element: `(ORDER + 1) / 2`.
pub const HALF: u64 = 0x7FFF_FFFF_8000_0001;

/// The base-two logarithm of `n`, rounded down; zero for `n` below two.
pub open spec fn log2(n: nat) -> nat
    decreases n,
{
    if n <= 1 {
        0
    } else {
        1 + log2(n / 2)
    }
}

/// Whether `n` is `2^k` for some `k`.
pub open spec fn is_power_of_two(n: nat) -> bool {
    exists|k: nat| n == pow2(k)
}

/// The `bits` low bits of `x` in reverse order.
pub open spec fn reverse_bits(x: nat, bits: nat) -> nat
    decreases bits,
{
    if bits == 0 {
        0
    } else {
        (x % 2) * pow2((bits - 1) as nat) + reverse_bits(x / 2, (bits - 1) as nat)
    }
}

/// The point that entry `index` of a codeword of length `2^log_len` is the
/// evaluation at.
pub open spec fn point(log_len: nat, index: nat) -> int {
    fpow(generator(log_len) as int, reverse_bits(index, log_len))
}

/// The value at `x` of the polynomial with the given coefficients, constant
/// term first.
pub open spec fn poly_eval(coeffs: Seq<u64>, x: int) -> int
    decreases coeffs.len(),
{
    if coeffs.len() == 0 {
        0
    } else {
        fadd(coeffs[0] as int, fmul(x, poly_eval(coeffs.skip(1), x)))
    }
}

/// The inverse of the point `x` that the pair `pair` of a codeword of length
/// `2^log_len` sits at: entries `2 * pair` and `2 * pair + 1` hold the values
/// at `x` and `-x`.
pub open spec fn pair_point_inverse(log_len: nat, pair: nat) -> int {
    fpow(finv(generator(log_len) as int), reverse_bits(pair, (log_len - 1) as nat))
}

/// The even part of the polynomial at `x^2`, from its values at `x` and `-x`.
pub open spec fn even_part(lo: int, hi: int) -> int {
    fmul(fadd(lo, hi), HALF as int)
}

/// The odd part of the polynomial at `x^2`, from its values at `x` and `-x`
/// and the inverse of `x`.
pub open spec fn odd_part(lo: int, hi: int, x_inv: int) -> int {
    fmul(fmul(fsub(lo, hi), HALF as int), x_inv)
}

/// The folded value `f_even(x^2) + beta * f_odd(x^2)`.
pub open spec fn fold_value(lo: int, hi: int, beta: int, x_inv: int) -> int {
    fadd(even_part(lo, hi), fmul(beta, odd_part(lo, hi, x_inv)))
}

/// Whether a codeword of length `len` can be folded: `len` is `2^k` with `k`
/// from one up to the two-adicity of the field.
pub open spec fn foldable(len: nat) -> bool {
    exists|k: nat| 1 <= k <= TWO_ADICITY && len == pow2(k)
}

/// Entry `i` of the fold of `codeword` with challenge `beta`.
pub open spec fn folded_entry(codeword: Seq<u64>, beta: u64, i: int) -> int {
    fold_value(
        codeword[2 * i] as int,
        codeword[2 * i + 1] as int,
        beta as int,
        pair_point_inverse(log2(codeword.len()), i as nat),
    )
}

/// The fold of `codeword` with challenge `beta`: half as long, one entry for
/// each pair.
pub open spec fn folded(codeword: Seq<u64>, beta: u64) -> Seq<u64> {
    Seq::new((codeword.len() / 2) as nat, |i: int| folded_entry(codeword, beta, i) as u64)
}

/// The number of folds that take a codeword of length `len` down to a length
/// that no longer exceeds `threshold`.
pub open spec fn rounds(len: nat, threshold: nat) -> nat
    decreases len,
{
    if len <= threshold || len <= 1 {
        0
    } else {
        1 + rounds(len / 2, threshold)
    }
}

/// [`HALF`] is one half: the inverse of two.
pub proof fn lemma_half_is_inverse_of_two()
    ensures
        is_inverse(2, HALF as int),
{
}

/// `log2` undoes `pow2`.
pub proof fn lemma_log2_pow2(k: nat)
    ensures
        log2(pow2(k)) == k,
    decreases k,
{
    if k == 0 {
        lemma2_to64();
    } else {
        lemma_pow2_unfold(k);
        lemma_pow2_pos((k - 1) as nat);
        lemma_log2_pow2((k - 1) as nat);
        assert(pow2(k) / 2 == pow2((k - 1) as nat));
    }
}

/// Two powers of two are equal only where their exponents are.
pub proof fn lemma_pow2_injective(a: nat, b: nat)
    requires
        pow2(a) == pow2(b),
    ensures
        a == b,
{
    lemma_log2_pow2(a);
    lemma_log2_pow2(b);
}

/// Folding from a length `2^a` down to a threshold `2^b` takes `a - b` rounds:
/// for powers of two with `threshold <= len`, the number of rounds is
/// `log2(len) - log2(threshold)`.
pub proof fn lemma_round_count(len: nat, threshold: nat)
    requires
        is_power_of_two(len),
        is_power_of_two(threshold),
        threshold <= len,
    ensures
        rounds(len, threshold) == log2(len) - log2(threshold),
    decreases len,
{
    let a = choose|k: nat| len == pow2(k);
    let b = choose|k: nat| threshold == pow2(k);
    lemma_log2_pow2(a);
    lemma_log2_pow2(b);
    lemma_pow2_pos(b);
    if len > threshold {
        if a <= b {
            if a < b {
                lemma_pow2_strictly_increases(a, b);
            }
        }
        assert(a > b);
        lemma_pow2_unfold(a);
        if (a - 1) as nat > b {
            lemma_pow2_strictly_increases(b, (a - 1) as nat);
        }
        assert(len / 2 == pow2((a - 1) as nat));
        lemma_log2_pow2((a - 1) as nat);
        lemma_round_count(len / 2, threshold);
    }
}

/// A number strictly between two neighbouring powers of two is none.
pub proof fn lemma_between_powers(n: nat, j: nat)
    requires
        pow2(j) < n < pow2(j + 1),
    ensures
        !is_power_of_two(n),
{
    assert forall|i: nat| n != pow2(i) by {
        if i < j {
            lemma_pow2_strictly_increases(i, j);
        } else if i > j + 1 {
            lemma_pow2_strictly_increases(j + 1, i);
        }
    }
}

/// The exponent `k` with `n == 2^k`, where there is one.
pub fn log2_exact(n: usize) -> (r: Option<usize>)
    ensures
        match r {
            Some(k) => n == pow2(k as nat),
            None => !is_power_of_two(n as nat),
        },
{
    let mut p: usize = 1;
    let mut k: usize = 0;
    proof {
        lemma2_to64();
    }
    while p < n && p <= usize::MAX / 2
        invariant
            p == pow2(k as nat),
            k < p,
            k > 0 ==> pow2((k - 1) as nat) < n,
        decreases usize::MAX - p,
    {
        proof {
            lemma_pow2_unfold((k + 1) as nat);
        }
        p = p * 2;
        k = k + 1;
    }
    if p == n {
        Some(k)
    } else {
        proof {
            if p < n {
                lemma_pow2_unfold((k + 1) as nat);
                lemma_between_powers(n as nat, k as nat);
            } else if k > 0 {
                lemma_between_powers(n as nat, (k - 1) as nat);
            } else {
                assert forall|i: nat| n != pow2(i) by {
                    lemma_pow2_pos(i);
                }
            }
        }
        None
    }
}

/// The power `2^k` as a machine number.
pub fn pow2_usize(k: usize) -> (r: usize)
    requires
        k < TWO_ADICITY,
    ensures
        r == pow2(k as nat),
{
    proof {
        lemma_usize_pow2_no_overflow(k as nat);
        lemma_usize_shl_is_mul(1usize, k);
    }
    1usize << k
}

/// The `bits` low bits of `x` in reverse order.
pub fn reverse_bits_len(x: usize, bits: usize) -> (r: usize)
    requires
        bits <= TWO_ADICITY,
    ensures
        r == reverse_bits(x as nat, bits as nat),
{
    let mut r: usize = 0;
    let mut rest: usize = x;
    let mut k: usize = 0;
    proof {
        lemma2_to64();
    }
    while k < bits
        invariant
            k <= bits <= TWO_ADICITY,
            r < pow2(k as nat),
            reverse_bits(x as nat, bits as nat) == r * pow2((bits - k) as nat) + reverse_bits(
                rest as nat,
                (bits - k) as nat,
            ),
        decreases bits - k,
    {
        proof {
            let m = (bits - k) as nat;
            let h = pow2((m - 1) as nat);
            lemma_pow2_unfold(m);
            lemma_pow2_unfold((k + 1) as nat);
            lemma2_to64();
            if k < 31 {
                lemma_pow2_strictly_increases(k as nat, 31);
            }
            assert(r * (2 * h) + (rest % 2) * h == (2 * r + rest % 2) * h) by (nonlinear_arith);
        }
        r = 2 * r + rest % 2;
        rest = rest / 2;
        k = k + 1;
    }
    proof {
        lemma2_to64();
        assert(r * pow2(0) == r);
    }
    r
}

/// Folds one pair of evaluations: from the values `lo` at `x` and `hi` at `-x`
/// to the value of `f_even + beta * f_odd` at `x^2`, given the inverse of `x`.
pub fn fold_pair(lo: u64, hi: u64, beta: u64, x_inv: u64) -> (r: u64)
    ensures
        r == fold_value(lo as int, hi as int, beta as int, x_inv as int),
{
    let even = field_mul(field_add(lo, hi), HALF);
    let odd = field_mul(field_mul(field_sub(lo, hi), HALF), x_inv);
    field_add(even, field_mul(beta, odd))
}

/// Folds a codeword once with the challenge `beta`. A codeword whose length is
/// not `2^k` with `1 <= k <= 32` cannot be folded and gives `None`.
pub fn fold_codeword(codeword: &Vec<u64>, beta: u64) -> (r: Option<Vec<u64>>)
    ensures
        r is Some <==> foldable(codeword@.len()),
        r matches Some(v) ==> v@ == folded(codeword@, beta),
{
    let n = codeword.len();
    let log_len = match log2_exact(n) {
        Some(k) => k,
        None => {
            return None;
        },
    };
    proof {
        lemma_log2_pow2(log_len as nat);
        assert forall|k: nat| n == pow2(k) implies k == log_len by {
            lemma_pow2_injective(k, log_len as nat);
        }
    }
    if log_len == 0 || log_len > TWO_ADICITY {
        return None;
    }
    proof {
        lemma_pow2_unfold(log_len as nat);
    }
    let g_inv = inverse_generator(log_len);
    let half = n / 2;
    let mut out: Vec<u64> = Vec::new();
    let mut i: usize = 0;
    while i < half
        invariant
            i <= half,
            n == codeword@.len(),
            n == 2 * half,
            1 <= log_len <= TWO_ADICITY,
            log_len == log2(n as nat),
            g_inv == finv(generator(log_len as nat) as int),
            out@.len() == i,
            forall|j: int| 0 <= j < i ==> out@[j] == folded_entry(codeword@, beta, j),
        decreases half - i,
    {
        let e = reverse_bits_len(i, log_len - 1);
        let x_inv = field_pow(g_inv, e as u64);
        let v = fold_pair(codeword[2 * i], codeword[2 * i + 1], beta, x_inv);
        out.push(v);
        i = i + 1;
    }
    assert(out@ =~= folded(codeword@, beta));
    Some(out)
}

/// Evaluates the polynomial with the given coefficients, constant term first,
/// at `x`.
pub fn eval_poly(coeffs: &Vec<u64>, x: u64) -> (r: u64)
    ensures
        r == poly_eval(coeffs@, x as int),
{
    let mut acc: u64 = 0;
    let mut k: usize = coeffs.len();
    assert(coeffs@.skip(k as int).len() == 0);
    while k > 0
        invariant
            k <= coeffs@.len(),
            acc == poly_eval(coeffs@.skip(k as int), x as int),
        decreases k,
    {
        k = k - 1;
        assert(coeffs@.skip(k as int).skip(1) =~= coeffs@.skip(k + 1));
        acc = field_add(coeffs[k], field_mul(x, acc));
    }
    assert(coeffs@.skip(0) =~= coeffs@);
    acc
}

/// The point that entry `index` of a codeword of length `2^log_len` is the
/// evaluation at.
pub fn domain_point(log_len: usize, index: usize) -> (r: u64)
    requires
        log_len <= TWO_ADICITY,
    ensures
        r == point(log_len as nat, index as nat),
{
    let e = reverse_bits_len(index, log_len);
    field_pow(two_adic_generator(log_len), e as u64)
}

/// The inverse of the point that the pair `pair` of a codeword of length
/// `2^log_len` sits at.
pub fn domain_pair_inverse(log_len: usize, pair: usize) -> (r: u64)
    requires
        1 <= log_len <= TWO_ADICITY,
    ensures
        r == pair_point_inverse(log_len as nat, pair as nat),
{
    let e = reverse_bits_len(pair, log_len - 1);
    field_pow(inverse_generator(log_len), e as u64)
}

/// The inverse of the generator of the subgroup of order `2^bits`.
pub fn inverse_generator(bits: usize) -> (r: u64)
    requires
        bits <= TWO_ADICITY,
    ensures
        r == finv(generator(bits as nat) as int),
{
    let g = two_adic_generator(bits);
    match field_try_inverse(g) {
        Some(v) => {
            proof {
                lemma_inverse_is_finv(g as int, v as int);
            }
            v
        },
        None => {
            assert(false);
            0
        },
    }
}

} // verus!
