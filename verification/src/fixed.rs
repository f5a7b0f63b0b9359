//! Fixed-point scalar arithmetic.
//!
//! Every physical quantity in this crate (coordinate, velocity component,
//! mass, radius, time step) is an `i64` counting multiples of `1/FP_SCALE`
//! of a world unit.  Products and quotients are computed in `i128`, rounded
//! toward zero, and clamped to the symmetric range `[-FP_LIMIT, FP_LIMIT]`,
//! so every operation is total and its exact result is stated in its
//! contract.

use vstd::prelude::*;
use vstd::arithmetic::div_mod::{
    lemma_div_is_ordered, lemma_div_multiples_vanish, lemma_div_nonincreasing,
    lemma_div_pos_is_pos,
};

verus! {

/// Number of fixed-point units in one world unit (resolution 1e-8).
pub const FP_SCALE: i64 = 100_000_000;

/// Magnitude cap (2^53) for every stored fixed-point quantity.
pub const FP_LIMIT: i64 = 0x20_0000_0000_0000;

/// Clamp an unbounded integer into the representable range.
pub open spec fn clip(x: int) -> int {
    if x > FP_LIMIT {
        FP_LIMIT as int
    } else if x < -(FP_LIMIT as int) {
        -(FP_LIMIT as int)
    } else {
        x
    }
}

/// `clip`, landed back on the machine grid.
pub open spec fn clip64(x: int) -> i64 {
    clip(x) as i64
}

/// Quotient rounded toward zero, matching machine division for a
/// positive divisor.
pub open spec fn tdiv(a: int, b: int) -> int
    recommends
        b > 0,
{
    if a >= 0 {
        a / b
    } else {
        -((-a) / b)
    }
}

/// Fixed-point product: `a` times `b`, rescaled and clamped.
pub open spec fn fmul(a: int, b: int) -> int {
    clip(tdiv(a * b, FP_SCALE as int))
}

/// Fixed-point quotient: `a` over `b`, rescaled and clamped.
pub open spec fn fdiv(a: int, b: int) -> int
    recommends
        b > 0,
{
    clip(tdiv(a * FP_SCALE, b))
}

pub proof fn lemma_tdiv_bounds(a: int, b: int)
    requires
        b >= 1,
    ensures
        a >= 0 ==> 0 <= tdiv(a, b) <= a,
        a < 0 ==> a <= tdiv(a, b) <= 0,
{
    if a >= 0 {
        lemma_div_pos_is_pos(a, b);
        lemma_div_nonincreasing(a, b);
    } else {
        lemma_div_pos_is_pos(-a, b);
        lemma_div_nonincreasing(-a, b);
    }
}

/// Dividing a larger magnitude by the same positive divisor gives a
/// quotient of no smaller magnitude; scaled multiples divide exactly.
pub proof fn lemma_tdiv_magnitude(a: int, m: int, b: int)
    requires
        b >= 1,
        -m <= a <= m,
        0 <= m,
    ensures
        -tdiv(m, b) <= tdiv(a, b) <= tdiv(m, b),
{
    if a >= 0 {
        lemma_div_is_ordered(a, m, b);
        lemma_div_pos_is_pos(a, b);
        lemma_div_pos_is_pos(m, b);
    } else {
        lemma_div_is_ordered(-a, m, b);
        lemma_div_pos_is_pos(-a, b);
    }
}

pub proof fn lemma_tdiv_multiple(x: int, b: int)
    requires
        b >= 1,
        x >= 0,
    ensures
        tdiv(b * x, b) == x,
{
    lemma_div_multiples_vanish(x, b);
}

/// A square is never negative.
pub proof fn lemma_square_nonneg(a: int)
    ensures
        a * a >= 0,
{
    assert(a * a >= 0) by (nonlinear_arith);
}

/// |a*b| <= ma*mb whenever |a| <= ma and |b| <= mb.
pub proof fn lemma_mul_magnitude(a: int, b: int, ma: int, mb: int)
    requires
        -ma <= a <= ma,
        -mb <= b <= mb,
    ensures
        -(ma * mb) <= a * b <= ma * mb,
{
    assert(-(ma * mb) <= a * b <= ma * mb) by (nonlinear_arith)
        requires
            -ma <= a <= ma,
            -mb <= b <= mb,
    ;
}

/// Truncating division of an `i128` by a positive divisor.
pub fn tdiv128(a: i128, b: i128) -> (r: i128)
    requires
        b > 0,
        a > i128::MIN,
    ensures
        r as int == tdiv(a as int, b as int),
        a >= 0 ==> 0 <= r <= a,
        a < 0 ==> a <= r <= 0,
{
    proof {
        lemma_tdiv_bounds(a as int, b as int);
    }
    if a >= 0 {
        let q: u128 = (a as u128) / (b as u128);
        q as i128
    } else {
        let m: u128 = (-a) as u128;
        let q: u128 = m / (b as u128);
        -(q as i128)
    }
}

/// Clamp an `i128` into the representable fixed-point range.
pub fn clip128(x: i128) -> (r: i64)
    ensures
        r as int == clip(x as int),
{
    if x > FP_LIMIT as i128 {
        FP_LIMIT
    } else if x < -(FP_LIMIT as i128) {
        -FP_LIMIT
    } else {
        x as i64
    }
}

/// Clamped fixed-point sum.
pub fn fp_add(a: i64, b: i64) -> (r: i64)
    ensures
        r as int == clip(a + b),
{
    clip128(a as i128 + b as i128)
}

/// Clamped fixed-point difference.
pub fn fp_sub(a: i64, b: i64) -> (r: i64)
    ensures
        r as int == clip(a - b),
{
    clip128(a as i128 - b as i128)
}

/// Clamped fixed-point product.
pub fn fp_mul(a: i64, b: i64) -> (r: i64)
    ensures
        r as int == fmul(a as int, b as int),
{
    proof {
        lemma_mul_magnitude(a as int, b as int, 0x8000_0000_0000_0000, 0x8000_0000_0000_0000);
    }
    let p: i128 = (a as i128) * (b as i128);
    clip128(tdiv128(p, FP_SCALE as i128))
}

/// Clamped fixed-point quotient (positive divisor).
pub fn fp_div(a: i64, b: i64) -> (r: i64)
    requires
        b > 0,
    ensures
        r as int == fdiv(a as int, b as int),
{
    proof {
        lemma_mul_magnitude(a as int, FP_SCALE as int, 0x8000_0000_0000_0000, FP_SCALE as int);
    }
    let p: i128 = (a as i128) * (FP_SCALE as i128);
    clip128(tdiv128(p, b as i128))
}

/// `r` is the integer square root of `x` rounded down.
pub open spec fn is_sqrt_floor(x: int, r: int) -> bool {
    0 <= r && r * r <= x && x < (r + 1) * (r + 1)
}

/// The integer square root, as a mathematical function.
pub open spec fn sqrt_floor(x: int) -> int {
    choose|r: int| is_sqrt_floor(x, r)
}

pub proof fn lemma_sqrt_floor_unique(x: int, r: int)
    requires
        is_sqrt_floor(x, r),
    ensures
        sqrt_floor(x) == r,
{
    assert(is_sqrt_floor(x, sqrt_floor(x)));
    let s = sqrt_floor(x);
    assert(s == r) by (nonlinear_arith)
        requires
            is_sqrt_floor(x, r),
            is_sqrt_floor(x, s),
    ;
}

/// Integer square root by bisection.
pub fn isqrt128(x: u128) -> (r: u128)
    ensures
        is_sqrt_floor(x as int, r as int),
        r as int == sqrt_floor(x as int),
        r < 0x1_0000_0000_0000_0000,
{
    let mut lo: u128 = 0;
    let mut hi: u128 = 0x1_0000_0000_0000_0000;
    proof {
        assert((0x1_0000_0000_0000_0000int) * (0x1_0000_0000_0000_0000int)
            == 0x1_0000_0000_0000_0000_0000_0000_0000_0000int) by (nonlinear_arith);
    }
    while lo + 1 < hi
        invariant
            0 <= lo < hi <= 0x1_0000_0000_0000_0000,
            (lo as int) * (lo as int) <= x as int,
            (hi as int) * (hi as int) > x as int,
        decreases hi - lo,
    {
        let mid: u128 = lo + (hi - lo) / 2;
        proof {
            assert((mid as int) * (mid as int) < 0x1_0000_0000_0000_0000_0000_0000_0000_0000int)
                by (nonlinear_arith)
                requires
                    0 <= mid as int,
                    (mid as int) < 0x1_0000_0000_0000_0000int,
            ;
        }
        let sq: u128 = mid * mid;
        if sq <= x {
            lo = mid;
        } else {
            hi = mid;
        }
    }
    proof {
        lemma_sqrt_floor_unique(x as int, lo as int);
    }
    lo
}

} // verus!
