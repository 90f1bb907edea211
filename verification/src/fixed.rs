//! Fixed-point arithmetic on `i64` ticks.
//!
//! A product of two fixed-point numbers is divided by `SCALE`, rounding
//! toward zero; a quotient multiplies the dividend by `SCALE` first and
//! is defined for non-negative operands only, rounding down.

use vstd::arithmetic::div_mod::{
    lemma_div_is_ordered, lemma_div_nonincreasing, lemma_div_pos_is_pos,
};
use vstd::prelude::*;

verus! {

use crate::SCALE;

/// Clamp of an integer into a closed interval.
pub open spec fn clamp_spec(v: int, lo: int, hi: int) -> int {
    if v < lo {
        lo
    } else if v > hi {
        hi
    } else {
        v
    }
}

/// Clamps `v` into `[lo, hi]`.
pub fn clamp_i64(v: i64, lo: i64, hi: i64) -> (r: i64)
    requires
        lo <= hi,
    ensures
        r == clamp_spec(v as int, lo as int, hi as int),
{
    if v < lo {
        lo
    } else if v > hi {
        hi
    } else {
        v
    }
}

/// Product of two fixed-point numbers: `a * b / SCALE`, rounded toward
/// zero.
pub open spec fn fp_mul_spec(a: int, b: int) -> int {
    if a * b >= 0 {
        (a * b) / (SCALE as int)
    } else {
        -((-(a * b)) / (SCALE as int))
    }
}

/// Fixed-point product, exact per `fp_mul_spec`.
pub fn fp_mul(a: i64, b: i64) -> (r: i64)
    requires
        -(i64::MAX as int) <= a as int * b as int <= i64::MAX as int,
    ensures
        r as int == fp_mul_spec(a as int, b as int),
{
    if a == 0 || b == 0 {
        proof {
            assert(a as int * b as int == 0) by (nonlinear_arith)
                requires
                    a == 0 || b == 0,
            ;
            assert(0int / (SCALE as int) == 0) by (nonlinear_arith);
        }
        return 0;
    }
    let neg: bool = (a < 0) != (b < 0);
    proof {
        assert(a as int * b as int != 0) by (nonlinear_arith)
            requires
                a != 0 && b != 0,
        ;
        let aa: int = if a < 0 {
            -(a as int)
        } else {
            a as int
        };
        let bb: int = if b < 0 {
            -(b as int)
        } else {
            b as int
        };
        assert(aa <= aa * bb && bb <= aa * bb && aa * bb <= i64::MAX as int) by (nonlinear_arith)
            requires
                aa >= 1,
                bb >= 1,
                aa == a as int || aa == -(a as int),
                bb == b as int || bb == -(b as int),
                -(i64::MAX as int) <= a as int * b as int <= i64::MAX as int,
        ;
    }
    let ua: u64 = if a < 0 {
        (-a) as u64
    } else {
        a as u64
    };
    let ub: u64 = if b < 0 {
        (-b) as u64
    } else {
        b as u64
    };
    proof {
        assert(ua as int * ub as int <= i64::MAX as int && ua as int * ub as int == (if (a < 0) != (
        b < 0) {
            -(a as int * b as int)
        } else {
            a as int * b as int
        })) by (nonlinear_arith)
            requires
                ua as int == (if a < 0 {
                    -(a as int)
                } else {
                    a as int
                }) && ub as int == (if b < 0 {
                    -(b as int)
                } else {
                    b as int
                }) && -(i64::MAX as int) <= a as int * b as int <= i64::MAX as int,
        ;
    }
    let prod: u64 = ua * ub;
    let q: u64 = prod / (SCALE as u64);
    proof {
        lemma_div_nonincreasing(prod as int, SCALE as int);
    }
    if neg {
        -(q as i64)
    } else {
        q as i64
    }
}

/// Bound on a fixed-point product from a bound on the plain product.
pub proof fn lemma_fp_mul_bounded(a: int, b: int, m: int)
    requires
        -m <= a * b <= m,
        0 <= m,
    ensures
        -(m / (SCALE as int)) <= fp_mul_spec(a, b) <= m / (SCALE as int),
{
    let s = SCALE as int;
    if a * b >= 0 {
        lemma_div_is_ordered(a * b, m, s);
        lemma_div_pos_is_pos(a * b, s);
    } else {
        lemma_div_is_ordered(-(a * b), m, s);
        lemma_div_pos_is_pos(-(a * b), s);
    }
    lemma_div_pos_is_pos(m, s);
}

/// Bound on a product from bounds on the factors, one of them
/// non-negative.
pub proof fn lemma_mul_bounds(a: int, b: int, am: int, bm: int)
    requires
        -am <= a <= am,
        0 <= b <= bm,
        0 <= am,
    ensures
        -(am * bm) <= a * b <= am * bm,
{
    assert(-(am * bm) <= a * b <= am * bm) by (nonlinear_arith)
        requires
            -am <= a <= am,
            0 <= b <= bm,
            0 <= am,
    ;
}

/// Fixed-point quotient of non-negative operands: `a * SCALE / b`,
/// rounded down.
pub open spec fn fp_div_spec(a: int, b: int) -> int
    recommends
        b > 0,
{
    (a * (SCALE as int)) / b
}

/// Fixed-point quotient, exact per `fp_div_spec`.
pub fn fp_div(a: i64, b: i64) -> (r: i64)
    requires
        0 <= a,
        0 < b,
        a as int * SCALE as int <= i64::MAX as int,
    ensures
        r as int == fp_div_spec(a as int, b as int),
        0 <= r,
{
    let num: u64 = (a as u64) * (SCALE as u64);
    let q: u64 = num / (b as u64);
    proof {
        lemma_div_nonincreasing(num as int, b as int);
    }
    q as i64
}

} // verus!
