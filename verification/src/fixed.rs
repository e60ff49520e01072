//! Saturating fixed-point scalar arithmetic with 16 fractional bits.
//!
//! A fixed-point number is an `i64` holding `value * 65536`. Products and
//! quotients are computed exactly in `i128` and then saturated back into the
//! `i64` range, so every operation is total and its result is pinned by a
//! spec function.

use vstd::prelude::*;

verus! {

/// The fixed-point representation of 1.0.
pub const ONE: i64 = 65536;

/// Clamp a mathematical integer into the `i64` range.
pub open spec fn sat64(v: int) -> int {
    if v > i64::MAX as int {
        i64::MAX as int
    } else if v < i64::MIN as int {
        i64::MIN as int
    } else {
        v
    }
}

/// Fixed-point product: `(a * b) / ONE`, rounded toward negative infinity,
/// saturated into `i64`.
pub open spec fn fx_mul_spec(a: int, b: int) -> int {
    sat64((a * b) / (ONE as int))
}

/// Fixed-point quotient `(a * ONE) / b` for a positive divisor, rounded
/// toward negative infinity, saturated into `i64`.
pub open spec fn fx_div_spec(a: int, b: int) -> int {
    sat64((a * (ONE as int)) / b)
}

/// Saturating sum.
pub open spec fn fx_add_spec(a: int, b: int) -> int {
    sat64(a + b)
}

/// Saturating difference.
pub open spec fn fx_sub_spec(a: int, b: int) -> int {
    sat64(a - b)
}

/// Clamp into a closed interval.
pub open spec fn clamp_spec(v: int, lo: int, hi: int) -> int {
    if v < lo {
        lo
    } else if v > hi {
        hi
    } else {
        v
    }
}

/// Saturate an `i128` intermediate into the `i64` range.
pub fn fix_sat(v: i128) -> (r: i64)
    ensures
        r as int == sat64(v as int),
{
    if v > i64::MAX as i128 {
        i64::MAX
    } else if v < i64::MIN as i128 {
        i64::MIN
    } else {
        v as i64
    }
}

/// Division of an `i128` by a positive divisor, rounding toward negative
/// infinity; agrees with the spec-level `/` since the divisor is positive.
pub fn floor_div_i128(a: i128, b: i128) -> (r: i128)
    requires
        b > 0,
    ensures
        r as int == a as int / b as int,
{
    proof {
        lemma_div_bounds(a as int, b as int);
    }
    match a.checked_div_euclid(b) {
        Some(q) => q,
        None => 0,
    }
}

/// For a positive divisor the Euclidean quotient lies between the dividend
/// and zero (inclusive), so it never leaves the `i128` range.
pub proof fn lemma_div_bounds(a: int, b: int)
    requires
        b > 0,
    ensures
        a >= 0 ==> 0 <= a / b <= a,
        a < 0 ==> a <= a / b <= 0,
{
    vstd::arithmetic::div_mod::lemma_fundamental_div_mod(a, b);
    let q = a / b;
    let r = a % b;
    vstd::arithmetic::div_mod::lemma_mod_bound(a, b);
    assert(a == b * q + r);
    assert(q * b == b * q) by (nonlinear_arith);
    assert(a == q * b + r);
    if a >= 0 {
        assert(q >= 0) by (nonlinear_arith)
            requires
                a == q * b + r,
                a >= 0,
                b > 0,
                0 <= r < b,
        ;
        assert(q <= a) by (nonlinear_arith)
            requires
                a == q * b + r,
                q >= 0,
                b > 0,
                r >= 0,
        ;
    } else {
        assert(q <= 0) by (nonlinear_arith)
            requires
                a == q * b + r,
                a < 0,
                b > 0,
                0 <= r < b,
        ;
        assert(q >= a) by (nonlinear_arith)
            requires
                a == q * b + r,
                a < 0,
                q <= 0,
                b > 0,
                0 <= r < b,
        ;
    }
}

/// The product of two `i64` values always fits in `i128`.
proof fn lemma_i64_prod_fits(a: int, b: int)
    requires
        i64::MIN <= a <= i64::MAX,
        i64::MIN <= b <= i64::MAX,
    ensures
        i128::MIN <= a * b <= i128::MAX,
{
    assert(i128::MIN <= a * b <= i128::MAX) by (nonlinear_arith)
        requires
            -0x8000000000000000 <= a <= 0x7fffffffffffffff,
            -0x8000000000000000 <= b <= 0x7fffffffffffffff,
    ;
}

/// Fixed-point multiplication.
pub fn fix_mul(a: i64, b: i64) -> (r: i64)
    ensures
        r as int == fx_mul_spec(a as int, b as int),
{
    proof {
        lemma_i64_prod_fits(a as int, b as int);
    }
    let p: i128 = (a as i128) * (b as i128);
    let q = floor_div_i128(p, ONE as i128);
    proof {
        lemma_div_bounds(p as int, ONE as int);
    }
    fix_sat(q)
}

/// Fixed-point division by a positive divisor.
pub fn fix_div(a: i64, b: i64) -> (r: i64)
    requires
        b > 0,
    ensures
        r as int == fx_div_spec(a as int, b as int),
{
    proof {
        lemma_i64_prod_fits(a as int, ONE as int);
    }
    let num: i128 = (a as i128) * (ONE as i128);
    let q = floor_div_i128(num, b as i128);
    proof {
        lemma_div_bounds(num as int, b as int);
    }
    fix_sat(q)
}

/// Saturating addition.
pub fn fix_add(a: i64, b: i64) -> (r: i64)
    ensures
        r as int == fx_add_spec(a as int, b as int),
{
    fix_sat((a as i128) + (b as i128))
}

/// Saturating subtraction.
pub fn fix_sub(a: i64, b: i64) -> (r: i64)
    ensures
        r as int == fx_sub_spec(a as int, b as int),
{
    fix_sat((a as i128) - (b as i128))
}

/// Clamp a value into a closed interval.
pub fn fix_clamp(v: i64, lo: i64, hi: i64) -> (r: i64)
    requires
        lo <= hi,
    ensures
        r as int == clamp_spec(v as int, lo as int, hi as int),
{
    if v < lo {
        lo
    } else if v > hi {
        hi
    } else {
        v
    }
}

} // verus!
