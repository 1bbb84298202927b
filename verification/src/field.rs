//! Exact arithmetic modulo a fixed 32-bit prime.
//!
//! Secret sharing evaluates polynomials over this field, so splitting and
//! reconstruction are exact — there is no floating-point rounding anywhere in
//! the protocol. The modulus is the largest 32-bit prime, so that a product
//! of two field elements fits a `u64` product computed in `u128`.

use vstd::prelude::*;

verus! {

/// The field modulus: the largest 32-bit prime.
pub const FIELD_P: u64 = 4294967291;

/// Largest magnitude of a signed fixed-point weight that embeds injectively
/// into the field: `(FIELD_P - 1) / 2`.
pub const FIELD_HALF: u64 = 2147483645;

/// Highest shareholder index supported by interpolation. Index differences up
/// to `MAX_SHARES - 1` have their field inverses available as constants.
pub const MAX_SHARES: usize = 16;

/// Field addition.
pub open spec fn fadd(a: u64, b: u64) -> u64 {
    (((a as int) + (b as int)) % (FIELD_P as int)) as u64
}

/// Field subtraction.
pub open spec fn fsub(a: u64, b: u64) -> u64 {
    (((a as int) - (b as int)) % (FIELD_P as int)) as u64
}

/// Field multiplication.
pub open spec fn fmul(a: u64, b: u64) -> u64 {
    (((a as int) * (b as int)) % (FIELD_P as int)) as u64
}

/// Whether `a` has a multiplicative inverse in the field.
pub open spec fn finvertible(a: u64) -> bool {
    exists|b: u64| b < FIELD_P && fmul(a, b) == 1
}

/// The multiplicative inverse of `a`, where one exists. By
/// `lemma_finv_unique` it is the only one below the modulus.
pub open spec fn finv(a: u64) -> u64 {
    choose|b: u64| b < FIELD_P && fmul(a, b) == 1
}

pub fn add_mod(a: u64, b: u64) -> (r: u64)
    requires
        a < FIELD_P,
        b < FIELD_P,
    ensures
        r == fadd(a, b),
        r < FIELD_P,
{
    (a + b) % FIELD_P
}

pub fn sub_mod(a: u64, b: u64) -> (r: u64)
    requires
        a < FIELD_P,
        b < FIELD_P,
    ensures
        r == fsub(a, b),
        r < FIELD_P,
{
    let r = (a + (FIELD_P - b)) % FIELD_P;
    proof {
        vstd::arithmetic::div_mod::lemma_mod_add_multiples_vanish(
            (a as int) - (b as int),
            FIELD_P as int,
        );
    }
    r
}

pub fn mul_mod(a: u64, b: u64) -> (r: u64)
    requires
        a < FIELD_P,
        b < FIELD_P,
    ensures
        r == fmul(a, b),
        r < FIELD_P,
{
    proof {
        assert((a as int) * (b as int) < (FIELD_P as int) * (FIELD_P as int)) by (nonlinear_arith)
            requires
                a < FIELD_P,
                b < FIELD_P,
        ;
    }
    (((a as u128) * (b as u128)) % (FIELD_P as u128)) as u64
}

/// Multiplication in the field commutes.
pub proof fn lemma_fmul_comm(a: u64, b: u64)
    ensures
        fmul(a, b) == fmul(b, a),
{
    assert((a as int) * (b as int) == (b as int) * (a as int)) by (nonlinear_arith);
}

/// Multiplication in the field associates.
pub proof fn lemma_fmul_assoc(a: u64, b: u64, c: u64)
    ensures
        fmul(fmul(a, b), c) == fmul(a, fmul(b, c)),
{
    let p = FIELD_P as int;
    let ai = a as int;
    let bi = b as int;
    let ci = c as int;
    vstd::arithmetic::div_mod::lemma_mul_mod_noop_left(ai * bi, ci, p);
    vstd::arithmetic::div_mod::lemma_mul_mod_noop_right(ai, bi * ci, p);
    vstd::arithmetic::mul::lemma_mul_is_associative(ai, bi, ci);
}

/// One is the multiplicative unit.
pub proof fn lemma_fmul_one(a: u64)
    requires
        a < FIELD_P,
    ensures
        fmul(1, a) == a,
        fmul(a, 1) == a,
{
    vstd::arithmetic::div_mod::lemma_small_mod(a as nat, FIELD_P as nat);
}

/// Factors of two field products can be regrouped pairwise.
pub proof fn lemma_fmul_shuffle(a: u64, b: u64, c: u64, d: u64)
    ensures
        fmul(fmul(a, b), fmul(c, d)) == fmul(fmul(a, c), fmul(b, d)),
{
    lemma_fmul_assoc(a, b, fmul(c, d));
    lemma_fmul_assoc(b, c, d);
    lemma_fmul_comm(b, c);
    lemma_fmul_assoc(c, b, d);
    lemma_fmul_assoc(a, c, fmul(b, d));
}

/// A field product is below the modulus.
pub proof fn lemma_fmul_bound(a: u64, b: u64)
    ensures
        fmul(a, b) < FIELD_P,
{
    vstd::arithmetic::mul::lemma_mul_nonnegative(a as int, b as int);
    vstd::arithmetic::div_mod::lemma_mod_bound((a as int) * (b as int), FIELD_P as int);
}

/// An element has at most one inverse below the modulus.
pub proof fn lemma_finv_unique(a: u64, b: u64, c: u64)
    requires
        b < FIELD_P,
        c < FIELD_P,
        fmul(a, b) == 1,
        fmul(a, c) == 1,
    ensures
        b == c,
{
    lemma_fmul_one(b);
    lemma_fmul_assoc(b, a, c);
    lemma_fmul_comm(b, a);
    lemma_fmul_comm(fmul(a, b), c);
    lemma_fmul_one(c);
    assert(b == fmul(b, fmul(a, c)));
    assert(fmul(b, fmul(a, c)) == fmul(fmul(b, a), c));
    assert(fmul(fmul(a, b), c) == c);
}

/// Witnessing an inverse pins down `finv`.
pub proof fn lemma_finv_is(a: u64, b: u64)
    requires
        b < FIELD_P,
        fmul(a, b) == 1,
    ensures
        finvertible(a),
        finv(a) == b,
{
    assert(finvertible(a));
    lemma_finv_unique(a, finv(a), b);
}

/// Negating both factors of an inverse pair yields another inverse pair.
pub proof fn lemma_fmul_negated_pair(a: u64, b: u64)
    requires
        0 < a < FIELD_P,
        0 < b < FIELD_P,
        fmul(a, b) == 1,
    ensures
        fmul((FIELD_P - a) as u64, (FIELD_P - b) as u64) == 1,
{
    let p = FIELD_P as int;
    let ai = a as int;
    let bi = b as int;
    assert((p - ai) * (p - bi) == ai * bi + p * (p - ai - bi)) by (nonlinear_arith);
    vstd::arithmetic::div_mod::lemma_mod_multiples_vanish(p - ai - bi, ai * bi, p);
}

/// The field inverse of a shareholder index or index difference, available
/// as a constant for the whole supported share range.
pub fn small_inverse(d: u64) -> (r: u64)
    requires
        1 <= d <= MAX_SHARES as u64,
    ensures
        0 < r < FIELD_P,
        fmul(d, r) == 1,
{
    let r: u64 = match d {
        1 => 1,
        2 => 2147483646,
        3 => 1431655764,
        4 => 1073741823,
        5 => 3435973833,
        6 => 715827882,
        7 => 613566756,
        8 => 2684354557,
        9 => 477218588,
        10 => 3865470562,
        11 => 390451572,
        12 => 357913941,
        13 => 991146298,
        14 => 306783378,
        15 => 1145324611,
        _ => 3489660924,
    };
    r
}

/// Every shareholder index and index difference in the supported range has a
/// field inverse.
pub proof fn lemma_small_invertible(d: u64)
    requires
        1 <= d <= MAX_SHARES as u64,
    ensures
        finvertible(d),
        0 < finv(d) < FIELD_P,
        fmul(d, finv(d)) == 1,
{
    let witness: u64 = if d == 1 {
        1
    } else if d == 2 {
        2147483646
    } else if d == 3 {
        1431655764
    } else if d == 4 {
        1073741823
    } else if d == 5 {
        3435973833
    } else if d == 6 {
        715827882
    } else if d == 7 {
        613566756
    } else if d == 8 {
        2684354557
    } else if d == 9 {
        477218588
    } else if d == 10 {
        3865470562
    } else if d == 11 {
        390451572
    } else if d == 12 {
        357913941
    } else if d == 13 {
        991146298
    } else if d == 14 {
        306783378
    } else if d == 15 {
        1145324611
    } else {
        3489660924
    };
    assert(fmul(d, witness) == 1);
    lemma_finv_is(d, witness);
    assert(fmul(d, 0u64) == 0);
}

} // verus!
