//! Fixed-point arithmetic on the unit interval.
//!
//! A value `x: u64` with `x <= UNIT` stands for the real number `x / UNIT`.
//! Multiplication and division round toward zero, as integer division does.

use vstd::prelude::*;

verus! {

/// The fixed-point representation of 1.0.
pub const UNIT: u64 = 1_000_000;

/// A scaled value that lies in the unit interval.
pub open spec fn is_unit(x: u64) -> bool {
    x <= UNIT
}

/// Fixed-point product: `x * y / UNIT`, rounding down.
pub open spec fn s_mul(x: int, y: int) -> int {
    x * y / (UNIT as int)
}

/// Division that treats a zero divisor as yielding 0; otherwise
/// `x / y` in fixed point, rounding down.
pub open spec fn s_div(x: int, y: int) -> int {
    if y == 0 {
        0
    } else {
        x * (UNIT as int) / y
    }
}

/// Fixed-point complement: `1 - x`.
pub open spec fn s_not(x: int) -> int {
    UNIT - x
}

/// Clamp `x` into `[lo, hi]`.
pub open spec fn s_clamp(x: int, lo: int, hi: int) -> int {
    if x < lo {
        lo
    } else if x > hi {
        hi
    } else {
        x
    }
}

/// `0 <= a*b/d <= c` whenever `0 <= a`, `0 <= b <= d`, `a <= c`, `0 < d`.
proof fn lemma_mul_div_bound(a: int, b: int, c: int, d: int)
    by (nonlinear_arith)
    requires
        0 <= a,
        0 <= b <= d,
        a <= c,
        0 < d,
    ensures
        0 <= a * b / d,
        a * b / d <= c,
{
}

/// The fixed-point product of two unit values is a unit value, at most
/// either factor.
pub proof fn lemma_s_mul_unit(x: int, y: int)
    requires
        0 <= x <= UNIT,
        0 <= y <= UNIT,
    ensures
        0 <= s_mul(x, y),
        s_mul(x, y) <= x,
        s_mul(x, y) <= y,
        s_mul(x, y) <= UNIT,
{
    lemma_mul_div_bound(x, y, x, UNIT as int);
    lemma_mul_div_bound(y, x, y, UNIT as int);
    assert(x * y == y * x) by (nonlinear_arith);
}

/// Division of a smaller unit quantity by a larger one stays in the unit
/// interval.
pub proof fn lemma_s_div_unit(x: int, y: int)
    requires
        0 <= x <= y,
    ensures
        0 <= s_div(x, y),
        s_div(x, y) <= UNIT,
{
    if y != 0 {
        assert(x * (UNIT as int) / y <= UNIT) by (nonlinear_arith)
            requires
                0 <= x <= y,
                y != 0,
        ;
        assert(0 <= x * (UNIT as int) / y) by (nonlinear_arith)
            requires
                0 <= x,
                0 < y,
        ;
    }
}

/// Fixed-point product rounds down, so it is monotone in each argument.
pub proof fn lemma_s_mul_mono(x1: int, x2: int, y: int)
    by (nonlinear_arith)
    requires
        0 <= x1 <= x2,
        0 <= y,
    ensures
        s_mul(x1, y) <= s_mul(x2, y),
{
}

/// Fixed-point product of two unit values.
pub fn unit_mul(x: u64, y: u64) -> (r: u64)
    requires
        is_unit(x),
        is_unit(y),
    ensures
        r == s_mul(x as int, y as int),
        is_unit(r),
        r <= x,
        r <= y,
{
    proof {
        lemma_s_mul_unit(x as int, y as int);
        assert(x * y <= UNIT * UNIT) by (nonlinear_arith)
            requires
                0 <= x <= UNIT,
                0 <= y <= UNIT,
        ;
    }
    (x * y) / UNIT
}

/// Fixed-point division with a zero divisor yielding 0. The caller keeps the
/// result in the unit interval by ensuring `x <= y`.
pub fn unit_div(x: u64, y: u64) -> (r: u64)
    requires
        x <= y,
        y <= UNIT * UNIT,
    ensures
        r == s_div(x as int, y as int),
        is_unit(r),
{
    if y == 0 {
        0
    } else {
        proof {
            lemma_s_div_unit(x as int, y as int);
            assert(x * UNIT <= (UNIT * UNIT) * UNIT) by (nonlinear_arith)
                requires
                    0 <= x <= UNIT * UNIT,
            ;
        }
        (x * UNIT) / y
    }
}

/// Fixed-point complement of a unit value.
pub fn unit_not(x: u64) -> (r: u64)
    requires
        is_unit(x),
    ensures
        r == s_not(x as int),
        is_unit(r),
{
    UNIT - x
}

/// Clamp a scaled value into `[lo, hi]`.
pub fn unit_clamp(x: u64, lo: u64, hi: u64) -> (r: u64)
    requires
        lo <= hi,
    ensures
        r == s_clamp(x as int, lo as int, hi as int),
        lo <= r <= hi,
{
    if x < lo {
        lo
    } else if x > hi {
        hi
    } else {
        x
    }
}

} // verus!
