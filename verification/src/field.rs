//! Arithmetic in the Goldilocks field, the field of `p = 2^64 - 2^32 + 1` elements.
//!
//! An element travels through this library as a `u64`. Every operation accepts
//! any `u64` as a representative of its residue class and returns the canonical
//! one, the representative below [`ORDER`]. The operations themselves are those
//! of `p3_goldilocks::Goldilocks`; what is assumed of each is written on it.

use p3_field::{Field, PrimeCharacteristicRing, PrimeField64, TwoAdicField};
use p3_goldilocks::Goldilocks;
use vstd::arithmetic::div_mod::{lemma_mul_mod_noop_left, lemma_mul_mod_noop_right};
use vstd::prelude::*;

verus! {

/// The number of elements of the field.
pub const ORDER: u64 = 0xFFFF_FFFF_0000_0001;

/// The largest `bits` for which the field has a subgroup of order `2^bits`.
pub const TWO_ADICITY: usize = 32;

/// The canonical representative of the class of `a`.
pub open spec fn canonical(a: int) -> int {
    a % (ORDER as int)
}

/// The sum of two elements.
pub open spec fn fadd(a: int, b: int) -> int {
    (a + b) % (ORDER as int)
}

/// The difference of two elements.
pub open spec fn fsub(a: int, b: int) -> int {
    (a - b) % (ORDER as int)
}

/// The product of two elements.
pub open spec fn fmul(a: int, b: int) -> int {
    (a * b) % (ORDER as int)
}

/// The power `a^e`, with `a^0 = 1` for every `a`.
pub open spec fn fpow(a: int, e: nat) -> int
    decreases e,
{
    if e == 0 {
        1
    } else {
        fmul(a, fpow(a, (e - 1) as nat))
    }
}

/// Whether `v` is the canonical multiplicative inverse of `a`.
pub open spec fn is_inverse(a: int, v: int) -> bool {
    0 <= v < ORDER && fmul(a, v) == 1
}

/// The canonical multiplicative inverse of `a`, meaningful where `a` is not zero.
pub open spec fn finv(a: int) -> int {
    choose|v: int| is_inverse(a, v)
}

/// The generator that the field fixes for its subgroup of order `2^bits`, for
/// `bits` up to [`TWO_ADICITY`]: the entry `bits` of the table
/// `Goldilocks::TWO_ADIC_GENERATORS`.
pub uninterp spec fn generator(bits: nat) -> u64;

/// An element has at most one canonical inverse.
pub proof fn lemma_inverse_unique(a: int, v: int, w: int)
    requires
        is_inverse(a, v),
        is_inverse(a, w),
    ensures
        v == w,
{
    let p = ORDER as int;
    assert(v * (a * w) == (a * v) * w) by (nonlinear_arith);
    lemma_mul_mod_noop_right(v, a * w, p);
    lemma_mul_mod_noop_left(a * v, w, p);
    assert(v * 1 == v && 1 * w == w);
    assert(v % p == v && w % p == w);
}

/// Whatever inverse of `a` one holds, it is [`finv`] of `a`.
pub proof fn lemma_inverse_is_finv(a: int, v: int)
    requires
        is_inverse(a, v),
    ensures
        finv(a) == v,
{
    lemma_inverse_unique(a, v, finv(a));
}

/// Calls `Goldilocks::add`, the `+` of the field, on the two representatives and
/// returns the canonical form of the result. Assumed: the result is the
/// canonical sum, for any two `u64`.
#[verifier::external_body]
pub(crate) fn field_add(a: u64, b: u64) -> (r: u64)
    ensures
        r == fadd(a as int, b as int),
{
    (Goldilocks::new(a) + Goldilocks::new(b)).as_canonical_u64()
}

/// Calls `Goldilocks::sub`, the `-` of the field. Assumed: the result is the
/// canonical difference, for any two `u64`.
#[verifier::external_body]
pub(crate) fn field_sub(a: u64, b: u64) -> (r: u64)
    ensures
        r == fsub(a as int, b as int),
{
    (Goldilocks::new(a) - Goldilocks::new(b)).as_canonical_u64()
}

/// Calls `Goldilocks::mul`, the `*` of the field. Assumed: the result is the
/// canonical product, for any two `u64`.
#[verifier::external_body]
pub(crate) fn field_mul(a: u64, b: u64) -> (r: u64)
    ensures
        r == fmul(a as int, b as int),
{
    (Goldilocks::new(a) * Goldilocks::new(b)).as_canonical_u64()
}

/// Calls `PrimeCharacteristicRing::exp_u64` on a Goldilocks element. Assumed:
/// square-and-multiply from one yields the canonical `a^e`.
#[verifier::external_body]
pub(crate) fn field_pow(a: u64, e: u64) -> (r: u64)
    ensures
        r == fpow(a as int, e as nat),
{
    Goldilocks::new(a).exp_u64(e).as_canonical_u64()
}

/// Calls `Field::try_inverse` on a Goldilocks element. Assumed: zero has no
/// inverse and gives `None`; any other element gives its canonical inverse.
#[verifier::external_body]
pub(crate) fn field_try_inverse(a: u64) -> (r: Option<u64>)
    ensures
        match r {
            Some(v) => canonical(a as int) != 0 && is_inverse(a as int, v as int),
            None => canonical(a as int) == 0,
        },
{
    match Goldilocks::new(a).try_inverse() {
        Some(v) => Some(v.as_canonical_u64()),
        None => None,
    }
}

/// Calls `TwoAdicField::two_adic_generator` of Goldilocks, which panics above
/// the two-adicity. Assumed: the table entry is canonical and not zero, being
/// an element of the multiplicative group.
#[verifier::external_body]
pub(crate) fn two_adic_generator(bits: usize) -> (r: u64)
    requires
        bits <= TWO_ADICITY,
    ensures
        r == generator(bits as nat),
        0 < r < ORDER,
{
    Goldilocks::two_adic_generator(bits).as_canonical_u64()
}

} // verus!
