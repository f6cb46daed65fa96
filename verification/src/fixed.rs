use vstd::arithmetic::div_mod::{
    lemma_div_is_ordered, lemma_div_multiples_vanish, lemma_div_pos_is_pos,
};
use vstd::math::abs;
use vstd::prelude::*;

verus! {

/// World lengths, trigonometric ratios, proportions and brightness factors
/// are all fixed-point integers counting thousandths of a unit.
pub const SCALE: i64 = 1000;

/// Largest magnitude admitted for a world coordinate, in thousandths.
pub const MAX_COORD: i64 = 1_000_000_000;

/// Largest magnitude a hit distance or a transformed coordinate derived
/// from one can reach.
pub const MAX_DISTANCE: i64 = 13_000_000_000;

/// Truncating division (round toward zero), the behaviour of `/` on Rust's
/// signed integers, expressed over mathematical integers.
pub open spec fn tdiv(x: int, d: int) -> int {
    if x == 0 {
        0
    } else if x > 0 && d > 0 {
        x / d
    } else if x < 0 && d < 0 {
        (x * -1) / (d * -1)
    } else if x < 0 {
        ((x * -1) / d) * -1
    } else {
        (x / (d * -1)) * -1
    }
}

/// Clamp `x` into the inclusive interval `[lo, hi]`.
pub open spec fn clamp(x: int, lo: int, hi: int) -> int {
    if x < lo {
        lo
    } else if x > hi {
        hi
    } else {
        x
    }
}

/// Dividing by a positive number cannot grow the magnitude beyond any
/// multiple bound: `|x| <= m * d` implies `|tdiv(x, d)| <= m`.
pub proof fn lemma_tdiv_bound(x: int, d: int, m: int)
    requires
        d > 0,
        m >= 0,
        -(m * d) <= x <= m * d,
    ensures
        -m <= tdiv(x, d) <= m,
{
    assert(m * d == d * m) by (nonlinear_arith);
    if x == 0 {
    } else if x > 0 {
        lemma_div_pos_is_pos(x, d);
        lemma_div_is_ordered(x, m * d, d);
        lemma_div_multiples_vanish(m, d);
    } else {
        lemma_div_pos_is_pos(x * -1, d);
        lemma_div_is_ordered(x * -1, m * d, d);
        lemma_div_multiples_vanish(m, d);
    }
}

/// Truncating division of a non-negative number by a positive one is the
/// ordinary Euclidean quotient, and it is non-negative.
pub proof fn lemma_tdiv_nonneg(x: int, d: int)
    requires
        x >= 0,
        d > 0,
    ensures
        tdiv(x, d) == x / d,
        tdiv(x, d) >= 0,
{
    if x > 0 {
        lemma_div_pos_is_pos(x, d);
    }
}

/// Negating both operands leaves the truncated quotient unchanged.
pub proof fn lemma_tdiv_neg_neg(x: int, d: int)
    ensures
        tdiv(x * -1, d * -1) == tdiv(x, d),
{
}

/// Truncating division by a positive divisor, as executable code.
pub fn div_trunc(a: i64, b: i64) -> (q: i64)
    requires
        b > 0,
        a > i64::MIN,
    ensures
        q == tdiv(a as int, b as int),
        -(abs(a as int) as int) <= q <= abs(a as int) as int,
{
    proof {
        let a_int = a as int;
        let m = abs(a_int) as int;
        assert(m <= m * b) by (nonlinear_arith)
            requires
                b >= 1 && m >= 0,
        ;
        lemma_tdiv_bound(a_int, b as int, m);
    }
    match a.checked_div(b) {
        Some(q) => q,
        None => {
            proof {
                assert(false);
            }
            0
        },
    }
}

/// The product of two magnitude-bounded numbers is bounded by the product
/// of the bounds.
pub proof fn lemma_mul_bound(x: int, y: int, bx: int, by: int)
    by (nonlinear_arith)
    requires
        abs(x) <= bx,
        abs(y) <= by,
    ensures
        -(bx * by) <= x * y <= bx * by,
{
}

/// Multiplication of non-negative numbers is monotone in both arguments.
pub proof fn lemma_mul_le(x: int, y: int, bx: int, by: int)
    by (nonlinear_arith)
    requires
        0 <= x <= bx,
        0 <= y <= by,
    ensures
        x * y <= bx * by,
{
}

/// The remainder `x - SCALE * tdiv(x, SCALE)` of truncating division by
/// the fixed-point scale lies strictly between `-SCALE` and `SCALE`.
pub proof fn lemma_tdiv_scale_remainder(x: int)
    ensures
        -1000 < x - 1000 * tdiv(x, 1000) < 1000,
{
    if x >= 0 {
        lemma_tdiv_nonneg(x, 1000);
        vstd::arithmetic::div_mod::lemma_fundamental_div_mod(x, 1000);
        vstd::arithmetic::div_mod::lemma_mod_division_less_than_divisor(x, 1000);
    } else {
        let n = x * -1;
        lemma_tdiv_nonneg(n, 1000);
        vstd::arithmetic::div_mod::lemma_fundamental_div_mod(n, 1000);
        vstd::arithmetic::div_mod::lemma_mod_division_less_than_divisor(n, 1000);
        assert(tdiv(x, 1000) == (n / 1000) * -1);
    }
}

/// Truncating division by the scale is the Euclidean quotient or one more.
pub proof fn lemma_tdiv_scale_vs_floor(x: int)
    ensures
        x / 1000 <= tdiv(x, 1000) <= x / 1000 + 1,
{
    let q = tdiv(x, 1000);
    let r = x - 1000 * q;
    lemma_tdiv_scale_remainder(x);
    if r >= 0 {
        vstd::arithmetic::div_mod::lemma_fundamental_div_mod_converse(x, 1000, q, r);
    } else {
        vstd::arithmetic::div_mod::lemma_fundamental_div_mod_converse(x, 1000, q - 1, r + 1000);
    }
}

/// `r` is the integer square root of `n`.
pub open spec fn is_isqrt(n: int, r: int) -> bool {
    0 <= r && r * r <= n < (r + 1) * (r + 1)
}

/// The integer square root of a non-negative number.
pub open spec fn isqrt_spec(n: int) -> int
    recommends
        n >= 0,
{
    choose|r: int| is_isqrt(n, r)
}

/// Two integer square roots of the same number are equal.
pub proof fn lemma_isqrt_unique(n: int, r1: int, r2: int)
    by (nonlinear_arith)
    requires
        is_isqrt(n, r1),
        is_isqrt(n, r2),
    ensures
        r1 == r2,
{
}

/// Integer square root by binary search.
pub fn isqrt(n: u64) -> (r: u64)
    requires
        n <= 9_000_000_000_000_000_000,
    ensures
        is_isqrt(n as int, r as int),
        r == isqrt_spec(n as int),
{
    let mut lo: u64 = 0;
    let mut hi: u64 = 3_100_000_000;
    proof {
        assert((3_100_000_000 as int) * (3_100_000_000 as int) > 9_000_000_000_000_000_000);
    }
    while lo + 1 < hi
        invariant
            lo < hi <= 3_100_000_000,
            (lo as int) * (lo as int) <= n as int,
            (n as int) < (hi as int) * (hi as int),
        decreases hi - lo,
    {
        let mid = lo + (hi - lo) / 2;
        proof {
            lemma_mul_le(mid as int, mid as int, 3_100_000_000, 3_100_000_000);
            assert((3_100_000_000 as int) * (3_100_000_000 as int) < u64::MAX);
        }
        if mid * mid <= n {
            lo = mid;
        } else {
            hi = mid;
        }
    }
    proof {
        assert(is_isqrt(n as int, lo as int));
        let w = isqrt_spec(n as int);
        assert(is_isqrt(n as int, w));
        lemma_isqrt_unique(n as int, lo as int, w);
    }
    lo
}

} // verus!
