//! Fixed-point scalar arithmetic.
//!
//! A scalar is an `i128` that counts millionths: the raw value `1_500_000`
//! stands for one and a half units.  Multiplication and division rescale by
//! [`SCALE`] and round toward zero, exactly as the underlying machine
//! division does, so every operation here has an exact specification.

use vstd::prelude::*;

verus! {

/// Raw steps per whole unit: scalars count millionths.
pub const SCALE: i128 = 1_000_000;

/// Largest magnitude an operand of `fmul` / `fdiv` may have; the product of
/// two such operands (or an operand times `SCALE`) still fits in `i128`.
pub const OP_MAX: i128 = 1_000_000_000_000_000_000;

/// Largest value `fsqrt` accepts: `SQ_IN_MAX * SCALE` still fits in `i128`.
pub const SQ_IN_MAX: i128 = 100_000_000_000_000_000_000_000_000_000_000;

/// Largest magnitude a summand may have: twice this still fits in `i128`.
pub const ADD_MAX: i128 = 80_000_000_000_000_000_000_000_000_000_000_000_000;

/// Magnitude of an integer.
pub open spec fn sabs(a: int) -> int {
    if a >= 0 {
        a
    } else {
        -a
    }
}

/// The smaller of two integers.
pub open spec fn smin(a: int, b: int) -> int {
    if a <= b {
        a
    } else {
        b
    }
}

/// Division rounded toward zero, the rounding of machine signed division:
/// the magnitudes are divided and the usual sign rule applies.
pub open spec fn tdiv(a: int, b: int) -> int {
    if (a >= 0) == (b >= 0) {
        sabs(a) / sabs(b)
    } else {
        -(sabs(a) / sabs(b))
    }
}

/// Fixed-point product: `a * b` rescaled by `SCALE`, rounded toward zero.
pub open spec fn fmul_s(a: int, b: int) -> int {
    tdiv(a * b, SCALE as int)
}

/// Fixed-point quotient: `a / b` rescaled by `SCALE`, rounded toward zero.
/// Division by zero is mapped to zero so that the function is total.
pub open spec fn fdiv_s(a: int, b: int) -> int {
    if b == 0 {
        0
    } else {
        tdiv(a * (SCALE as int), b)
    }
}

/// Truncated division keeps the magnitude within `|a| / |b|`, and never
/// flips the sign of the dividend.
pub proof fn lemma_tdiv_abs(a: int, b: int)
    requires
        b != 0,
    ensures
        sabs(tdiv(a, b)) == sabs(a) / sabs(b),
        sabs(tdiv(a, b)) <= sabs(a),
        a >= 0 && b >= 1 ==> tdiv(a, b) >= 0,
        a <= 0 && b >= 1 ==> tdiv(a, b) <= 0,
{
    vstd::arithmetic::div_mod::lemma_div_is_ordered_by_denominator(sabs(a), 1, sabs(b));
    vstd::arithmetic::div_mod::lemma_div_basics(sabs(a));
    vstd::arithmetic::div_mod::lemma_div_pos_is_pos(sabs(a), sabs(b));
}

/// `r` is the integer square root of `n`, rounded down.
pub open spec fn is_sqrt(n: int, r: int) -> bool {
    0 <= r && r * r <= n && n < (r + 1) * (r + 1)
}

/// The integer square root as a value: the unique `r` with
/// `r * r <= n < (r + 1) * (r + 1)`.
pub open spec fn sqrt_s(n: int) -> int {
    choose|r: int| is_sqrt(n, r)
}

/// Fixed-point square root: the square root of `a` units, rounded down to
/// the fixed-point grid.
pub open spec fn fsqrt_s(a: int) -> int {
    sqrt_s(a * (SCALE as int))
}

/// Truncated division by a positive divisor is monotone in the dividend.
pub proof fn lemma_tdiv_monotone(a1: int, a2: int, b: int)
    requires
        a1 <= a2,
        b >= 1,
    ensures
        tdiv(a1, b) <= tdiv(a2, b),
{
    if a1 >= 0 {
        vstd::arithmetic::div_mod::lemma_div_is_ordered(a1, a2, b);
    } else if a2 < 0 {
        vstd::arithmetic::div_mod::lemma_div_is_ordered(-a2, -a1, b);
    } else {
        vstd::arithmetic::div_mod::lemma_div_pos_is_pos(-a1, b);
        vstd::arithmetic::div_mod::lemma_div_pos_is_pos(a2, b);
    }
}

/// Every non-negative integer has a rounded-down square root.
pub proof fn lemma_sqrt_exists(n: int)
    requires
        n >= 0,
    ensures
        is_sqrt(n, sqrt_s(n)),
    decreases n,
{
    if n == 0 {
        assert(is_sqrt(0, 0));
    } else {
        lemma_sqrt_exists(n - 1);
        let r = sqrt_s(n - 1);
        assert(is_sqrt(n - 1, r));
        if (r + 1) * (r + 1) <= n {
            assert(n == (r + 1) * (r + 1));
            assert((r + 2) * (r + 2) > n) by (nonlinear_arith)
                requires
                    n == (r + 1) * (r + 1),
                    r >= 0,
            ;
            assert(is_sqrt(n, r + 1));
        } else {
            assert(is_sqrt(n, r));
        }
    }
}

/// The rounded-down square root is unique, so any witness is the value.
pub proof fn lemma_sqrt_unique(n: int, r: int)
    requires
        is_sqrt(n, r),
    ensures
        sqrt_s(n) == r,
{
    let w = sqrt_s(n);
    assert(is_sqrt(n, w));
    if w < r {
        assert((w + 1) * (w + 1) <= r * r) by (nonlinear_arith)
            requires
                0 <= w,
                w < r,
        ;
    }
    if r < w {
        assert((r + 1) * (r + 1) <= w * w) by (nonlinear_arith)
            requires
                0 <= r,
                r < w,
        ;
    }
}

/// Integer square root by bisection.
pub fn isqrt(n: u128) -> (r: u128)
    ensures
        is_sqrt(n as int, r as int),
        r < 0x1_0000_0000_0000_0000,
{
    let mut lo: u128 = 0;
    let mut hi: u128 = 0x1_0000_0000_0000_0000;
    while lo + 1 < hi
        invariant
            lo < hi <= 0x1_0000_0000_0000_0000,
            (lo as int) * (lo as int) <= n as int,
            (n as int) < (hi as int) * (hi as int),
        decreases hi - lo,
    {
        let mid = lo + (hi - lo) / 2;
        assert((mid as int) * (mid as int) < 0x1_0000_0000_0000_0000_0000_0000_0000_0000)
            by (nonlinear_arith)
            requires
                mid < 0x1_0000_0000_0000_0000u128,
        ;
        if mid * mid <= n {
            lo = mid;
        } else {
            hi = mid;
        }
    }
    lo
}

/// Exact fixed-point square root of a non-negative scalar.
pub fn fsqrt(a: i128) -> (r: i128)
    requires
        0 <= a <= SQ_IN_MAX,
    ensures
        r == fsqrt_s(a as int),
        is_sqrt(a * (SCALE as int), r as int),
        0 <= r < 0x1_0000_0000_0000_0000,
{
    let m = (a * SCALE) as u128;
    let r = isqrt(m);
    proof {
        lemma_sqrt_unique(a * (SCALE as int), r as int);
    }
    r as i128
}

/// Truncated division of plain (unscaled) integers.
pub fn idiv(a: i128, b: i128) -> (r: i128)
    requires
        a > i128::MIN,
        b >= 1,
    ensures
        r == tdiv(a as int, b as int),
        sabs(r as int) <= sabs(a as int),
{
    proof {
        lemma_tdiv_abs(a as int, b as int);
    }
    if a >= 0 {
        a / b
    } else {
        -((-a) / b)
    }
}

/// Bounds on the operands of a fixed-point product bound the result.
pub proof fn lemma_fmul_s_bound(a: int, b: int, ab: int, bb: int)
    requires
        -ab <= a <= ab,
        -bb <= b <= bb,
    ensures
        sabs(fmul_s(a, b)) <= ab * bb / (SCALE as int),
{
    assert(-(ab * bb) <= a * b <= ab * bb) by (nonlinear_arith)
        requires
            -ab <= a <= ab,
            -bb <= b <= bb,
    ;
    lemma_tdiv_abs(a * b, SCALE as int);
    vstd::arithmetic::div_mod::lemma_div_is_ordered(sabs(a * b), ab * bb, SCALE as int);
}

/// The fixed-point product of two scalars in `[0, 1]` stays in `[0, 1]`,
/// and never exceeds either factor.
pub proof fn lemma_fmul_unit(a: int, b: int)
    requires
        0 <= a <= SCALE as int,
        0 <= b <= SCALE as int,
    ensures
        0 <= fmul_s(a, b) <= SCALE as int,
        fmul_s(a, b) <= a,
        fmul_s(a, b) <= b,
{
    let sc = SCALE as int;
    assert(0 <= a * b && a * b <= a * sc && a * b <= b * sc) by (nonlinear_arith)
        requires
            0 <= a <= sc,
            0 <= b <= sc,
    ;
    lemma_tdiv_abs(a * b, sc);
    vstd::arithmetic::div_mod::lemma_div_is_ordered(a * b, a * sc, sc);
    vstd::arithmetic::div_mod::lemma_div_is_ordered(a * b, b * sc, sc);
    vstd::arithmetic::div_mod::lemma_div_multiples_vanish(a, sc);
    vstd::arithmetic::div_mod::lemma_div_multiples_vanish(b, sc);
    assert(a * sc == sc * a && b * sc == sc * b) by (nonlinear_arith);
}

/// Magnitude of a scalar.
pub fn iabs(a: i128) -> (r: i128)
    requires
        a > i128::MIN,
    ensures
        r == sabs(a as int),
{
    if a >= 0 {
        a
    } else {
        -a
    }
}

/// Exact fixed-point multiplication.
pub fn fmul(a: i128, b: i128) -> (r: i128)
    requires
        -OP_MAX <= a <= OP_MAX,
        -OP_MAX <= b <= OP_MAX,
    ensures
        r == fmul_s(a as int, b as int),
        sabs(r as int) <= sabs(a as int) * sabs(b as int) / (SCALE as int),
{
    proof {
        assert(-(OP_MAX as int) * (OP_MAX as int) <= a * b <= (OP_MAX as int) * (OP_MAX as int))
            by (nonlinear_arith)
            requires
                -OP_MAX <= a <= OP_MAX,
                -OP_MAX <= b <= OP_MAX,
        ;
        assert(sabs(a as int) * sabs(b as int) == sabs((a as int) * (b as int)))
            by (nonlinear_arith);
        lemma_tdiv_abs(a * b, SCALE as int);
    }
    (a * b) / SCALE
}

/// Exact fixed-point division; the divisor must be nonzero.
pub fn fdiv(a: i128, b: i128) -> (r: i128)
    requires
        -OP_MAX <= a <= OP_MAX,
        -OP_MAX <= b <= OP_MAX,
        b != 0,
    ensures
        r == fdiv_s(a as int, b as int),
        sabs(r as int) <= sabs(a as int) * (SCALE as int) / sabs(b as int),
{
    proof {
        assert(-(OP_MAX as int) * (SCALE as int) <= a * SCALE <= (OP_MAX as int) * (SCALE as int))
            by (nonlinear_arith)
            requires
                -OP_MAX <= a <= OP_MAX,
        ;
        assert(sabs(a as int) * (SCALE as int) == sabs((a as int) * (SCALE as int)))
            by (nonlinear_arith);
        lemma_tdiv_abs(a * SCALE, b as int);
    }
    if b >= 1 {
        (a * SCALE) / b
    } else {
        -((a * SCALE) / (-b))
    }
}

} // verus!
