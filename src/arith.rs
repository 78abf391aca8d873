//! Fixed-point helpers for interest, backed by `sp_arithmetic`.
//!
//! A `Perbill` is carried as its parts per billion (`u32`) and a `FixedU128` as its
//! inner value (`u128`, scaled by 10^18).
use vstd::prelude::*;

use sp_arithmetic::traits::Saturating;
use sp_arithmetic::{FixedPointNumber, FixedU128, PerThing, Perbill};

verus! {

/// Parts per billion that make up one whole.
pub const PERBILL_ONE: u32 = 1_000_000_000;

/// The inner value of `FixedU128` that stands for one.
pub const FIXED_ONE: u128 = 1_000_000_000_000_000_000;

/// `p / q` in parts per billion, rounded down; one whole where `q` is zero or `p > q`.
pub open spec fn perbill_ratio(p: u32, q: u32) -> int {
    if q == 0 || p > q {
        PERBILL_ONE as int
    } else {
        (PERBILL_ONE as int) * (p as int) / (q as int)
    }
}

/// The product of two ratios given in parts per billion, rounded down.
pub open spec fn perbill_product(a: u32, b: u32) -> int {
    (a as int) * (b as int) / (PERBILL_ONE as int)
}

/// `x` scaled by `parts` per billion, rounded to the nearest integer (down when halfway).
pub open spec fn perbill_apply(parts: u32, x: u128) -> int {
    let billion = PERBILL_ONE as int;
    let rem_mul = (x as int % billion) * (parts as int);
    (x as int / billion) * (parts as int) + rem_mul / billion + if rem_mul % billion > billion / 2 {
        1int
    } else {
        0int
    }
}

/// The integer part of `inner / 10^18 * n`, capped at the largest `u128`.
pub open spec fn fixed_apply(inner: u128, n: u128) -> int {
    let exact = (inner as int) * (n as int) / (FIXED_ONE as int);
    if exact <= u128::MAX as int {
        exact
    } else {
        u128::MAX as int
    }
}

/// The inner value of `FixedU128::saturating_pow(base, exp)`.
pub uninterp spec fn fixed_pow(base: u128, exp: nat) -> u128;

/// A ratio in parts per billion is at most one whole.
pub proof fn lemma_perbill_ratio_bound(p: u32, q: u32)
    ensures
        0 <= perbill_ratio(p, q) <= PERBILL_ONE,
{
    if !(q == 0 || p > q) {
        let b = PERBILL_ONE as int;
        assert(0 <= b * (p as int) <= b * (q as int)) by (nonlinear_arith)
            requires
                b == 1_000_000_000,
                0 <= p <= q,
        ;
        vstd::arithmetic::div_mod::lemma_div_is_ordered(b * (p as int), b * (q as int), q as int);
        vstd::arithmetic::div_mod::lemma_div_multiples_vanish(b, q as int);
        vstd::arithmetic::div_mod::lemma_div_pos_is_pos(b * (p as int), q as int);
    }
}

/// The product of two ratios is at most either of them.
pub proof fn lemma_perbill_product_bound(a: u32, b: u32)
    requires
        a <= PERBILL_ONE,
        b <= PERBILL_ONE,
    ensures
        0 <= perbill_product(a, b) <= b,
{
    let one = PERBILL_ONE as int;
    assert(0 <= (a as int) * (b as int) <= one * (b as int)) by (nonlinear_arith)
        requires
            one == 1_000_000_000,
            0 <= a <= one,
            0 <= b,
    ;
    vstd::arithmetic::div_mod::lemma_div_is_ordered((a as int) * (b as int), one * (b as int), one);
    vstd::arithmetic::div_mod::lemma_div_multiples_vanish(b as int, one);
    vstd::arithmetic::div_mod::lemma_div_pos_is_pos((a as int) * (b as int), one);
    assert(one * (b as int) == (b as int) * one) by (nonlinear_arith);
}

/// Any ratio times zero is zero.
pub proof fn lemma_perbill_product_zero(b: u32)
    ensures
        perbill_product(0, b) == 0,
{
}

/// Relies on `Perbill::from_rational`: rounds `p / q` down to parts per billion, and gives
/// one whole where `p > q` or `q` is zero.
#[verifier::external_body]
pub(crate) fn perbill_from_rational(p: u32, q: u32) -> (r: u32)
    ensures
        r as int == perbill_ratio(p, q),
{
    Perbill::from_rational(p, q).deconstruct()
}

/// Relies on `Perbill * Perbill`: the product of the parts divided by a billion.
#[verifier::external_body]
pub(crate) fn perbill_mul(a: u32, b: u32) -> (r: u32)
    requires
        a <= PERBILL_ONE,
        b <= PERBILL_ONE,
    ensures
        r as int == perbill_product(a, b),
{
    (Perbill::from_parts(a) * Perbill::from_parts(b)).deconstruct()
}

/// Relies on `Perbill * u128`, which rounds to the nearest integer (down when halfway)
/// without overflow.
#[verifier::external_body]
pub(crate) fn perbill_mul_balance(parts: u32, x: u128) -> (r: u128)
    requires
        parts <= PERBILL_ONE,
    ensures
        r as int == perbill_apply(parts, x),
{
    Perbill::from_parts(parts) * x
}

/// Relies on `FixedU128::saturating_from_rational`, which rounds `n / d` down to the
/// fixed-point grid and panics where `d` is zero.
#[verifier::external_body]
pub(crate) fn fixed_from_rational(n: u32, d: u32) -> (r: u128)
    requires
        d != 0,
    ensures
        r as int == (n as int) * (FIXED_ONE as int) / (d as int),
{
    FixedU128::saturating_from_rational(n, d).into_inner()
}

/// Relies on `FixedU128::from_perbill`: the same ratio on the 10^18 grid.
#[verifier::external_body]
pub(crate) fn fixed_from_perbill(parts: u32) -> (r: u128)
    requires
        parts <= PERBILL_ONE,
    ensures
        r as int == (parts as int) * 1_000_000_000,
{
    FixedU128::from_perbill(Perbill::from_parts(parts)).into_inner()
}

/// Relies on `FixedU128::saturating_pow`; any power to the exponent zero is one.
#[verifier::external_body]
pub(crate) fn fixed_saturating_pow(base: u128, exp: usize) -> (r: u128)
    ensures
        r == fixed_pow(base, exp as nat),
        exp == 0 ==> r == FIXED_ONE,
{
    FixedU128::from_inner(base).saturating_pow(exp).into_inner()
}

/// Relies on `FixedU128::saturating_mul_int`: the product rounded down, capped at the
/// largest `u128`.
#[verifier::external_body]
pub(crate) fn fixed_saturating_mul_int(inner: u128, n: u128) -> (r: u128)
    ensures
        r as int == fixed_apply(inner, n),
{
    FixedU128::from_inner(inner).saturating_mul_int(n)
}

} // verus!
