//! Fixed-point arithmetic: truncating division, wide multiplication and a
//! floor integer square root, together with the spec functions that the rest
//! of the library's contracts are stated over.

use vstd::prelude::*;
use vstd::arithmetic::div_mod::{
    lemma_div_is_ordered, lemma_div_multiples_vanish, lemma_div_nonincreasing,
    lemma_div_pos_is_pos,
};

verus! {

/// Raw units per 1.0: every geometric quantity in the library is a
/// fixed-point value at this scale (raw = real * SCALE).
pub const SCALE: i64 = 65536;

/// Largest raw coordinate magnitude admitted for scene geometry (sphere
/// centers and radii, ray origins and directions): 2^24 raw, 256.0 real.
pub const COORD_MAX: i64 = 16777216;

/// Largest ray-parameter magnitude admitted by `Ray::at` and the hit tests:
/// 2^36 raw, about a million real units; it stands in for +infinity.
pub const T_MAX: i64 = 68719476736;

/// Truncating division (quotient rounded toward zero), for a positive
/// divisor. This is the rounding that every fixed-point step below performs.
pub open spec fn tdiv(a: int, b: int) -> int
    recommends
        b > 0,
{
    if a >= 0 {
        a / b
    } else {
        -((-a) / b)
    }
}

/// `r` is the floor of the square root of `n`.
pub open spec fn is_sqrt(n: int, r: int) -> bool {
    0 <= r && r * r <= n && n < (r + 1) * (r + 1)
}

/// The floor of the square root of a nonnegative `n`.
pub open spec fn sqrt_floor(n: int) -> int {
    choose|r: int| is_sqrt(n, r)
}

/// Clamp a value into the range of an 8-bit color channel.
pub open spec fn clamp255(x: int) -> int {
    if x < 0 {
        0
    } else if x > 255 {
        255
    } else {
        x
    }
}

/// At most one integer is the floor square root of a given number.
pub proof fn lemma_sqrt_unique(n: int, r: int)
    requires
        is_sqrt(n, r),
    ensures
        r == sqrt_floor(n),
{
    assert(exists|x: int| is_sqrt(n, x));
    let s = sqrt_floor(n);
    assert(is_sqrt(n, s));
    if r < s {
        assert((r + 1) * (r + 1) <= s * s) by (nonlinear_arith)
            requires
                0 <= r,
                r < s,
        ;
        assert(false);
    }
    if s < r {
        assert((s + 1) * (s + 1) <= r * r) by (nonlinear_arith)
            requires
                0 <= s,
                s < r,
        ;
        assert(false);
    }
}

/// Every nonnegative number has a floor square root, so `sqrt_floor` on it
/// is meaningful.
pub proof fn lemma_sqrt_exists(n: int)
    requires
        0 <= n,
    ensures
        is_sqrt(n, sqrt_floor(n)),
    decreases n,
{
    if n == 0 {
        assert(is_sqrt(0, 0));
    } else {
        lemma_sqrt_exists(n - 1);
        let r = sqrt_floor(n - 1);
        if n < (r + 1) * (r + 1) {
            assert(is_sqrt(n, r));
        } else {
            assert((r + 1) * (r + 1) < (r + 2) * (r + 2)) by (nonlinear_arith)
                requires
                    0 <= r,
            ;
            assert(is_sqrt(n, r + 1));
        }
        assert(exists|x: int| is_sqrt(n, x));
    }
}

/// The floor square root of a perfect square `k * k` is `k` itself.
pub proof fn lemma_sqrt_perfect(k: int)
    requires
        0 <= k,
    ensures
        sqrt_floor(k * k) == k,
{
    assert(k * k < (k + 1) * (k + 1)) by (nonlinear_arith)
        requires
            0 <= k,
    ;
    assert(is_sqrt(k * k, k));
    lemma_sqrt_unique(k * k, k);
}

/// Truncating division by a positive divisor is monotone in the numerator.
pub proof fn lemma_tdiv_ordered(a1: int, a2: int, b: int)
    requires
        a1 <= a2,
        0 < b,
    ensures
        tdiv(a1, b) <= tdiv(a2, b),
{
    if a1 >= 0 {
        lemma_div_is_ordered(a1, a2, b);
    } else if a2 >= 0 {
        lemma_div_pos_is_pos(-a1, b);
        lemma_div_pos_is_pos(a2, b);
    } else {
        lemma_div_is_ordered(-a2, -a1, b);
    }
}

/// A truncating quotient lies between zero and the numerator.
pub proof fn lemma_tdiv_small(a: int, b: int)
    requires
        0 < b,
    ensures
        a >= 0 ==> 0 <= tdiv(a, b) <= a,
        a < 0 ==> a <= tdiv(a, b) <= 0,
{
    if a >= 0 {
        lemma_div_pos_is_pos(a, b);
        lemma_div_nonincreasing(a, b);
    } else {
        lemma_div_pos_is_pos(-a, b);
        lemma_div_nonincreasing(-a, b);
    }
}

/// Dividing an exact multiple cancels the divisor: `tdiv(b * x, b) == x`.
pub proof fn lemma_tdiv_multiples_vanish(x: int, b: int)
    requires
        0 < b,
    ensures
        tdiv(b * x, b) == x,
{
    lemma_div_multiples_vanish(x, b);
    if b * x < 0 {
        assert(-(b * x) == b * (-x)) by (nonlinear_arith);
        lemma_div_multiples_vanish(-x, b);
    }
}

/// A product is bounded by the product of the bounds of its factors.
pub proof fn lemma_mul_abs_bound(a: int, b: int, ba: int, bb: int)
    by (nonlinear_arith)
    requires
        -ba <= a <= ba,
        -bb <= b <= bb,
        0 <= ba,
        0 <= bb,
    ensures
        -(ba * bb) <= a * b <= ba * bb,
{
}

/// A square is nonnegative, and positive when its base is nonzero.
pub proof fn lemma_square_nonneg(a: int)
    by (nonlinear_arith)
    ensures
        0 <= a * a,
        a != 0 ==> 1 <= a * a,
{
}

/// Product of two 64-bit values, computed exactly in 128 bits.
pub fn mul_wide(a: i64, b: i64) -> (r: i128)
    ensures
        r == a * b,
{
    proof {
        lemma_mul_abs_bound(
            a as int,
            b as int,
            0x8000_0000_0000_0000,
            0x8000_0000_0000_0000,
        );
    }
    (a as i128) * (b as i128)
}

/// Truncating division on 128-bit values, via unsigned magnitudes.
pub fn tdiv_i128(a: i128, b: i128) -> (r: i128)
    requires
        0 < b,
        a > i128::MIN,
    ensures
        r == tdiv(a as int, b as int),
{
    if a >= 0 {
        proof {
            lemma_div_pos_is_pos(a as int, b as int);
            lemma_div_nonincreasing(a as int, b as int);
        }
        ((a as u128) / (b as u128)) as i128
    } else {
        proof {
            lemma_div_pos_is_pos(-(a as int), b as int);
            lemma_div_nonincreasing(-(a as int), b as int);
        }
        let m: u128 = (-a) as u128;
        -((m / (b as u128)) as i128)
    }
}

/// Floor square root of a 128-bit value below 2^126, by bisection.
pub fn isqrt(n: u128) -> (r: u128)
    requires
        (n as int) < 0x4000_0000_0000_0000_0000_0000_0000_0000,
    ensures
        is_sqrt(n as int, r as int),
        r == sqrt_floor(n as int),
{
    let mut lo: u128 = 0;
    let mut hi: u128 = 0x8000_0000_0000_0000;
    while lo + 1 < hi
        invariant
            lo < hi,
            hi <= 0x8000_0000_0000_0000,
            (lo as int) * (lo as int) <= n as int,
            (n as int) < (hi as int) * (hi as int),
        decreases hi - lo,
    {
        let mid: u128 = lo + (hi - lo) / 2;
        proof {
            assert((mid as int) * (mid as int) <= 0x4000_0000_0000_0000_0000_0000_0000_0000)
                by (nonlinear_arith)
                requires
                    0 <= mid as int <= 0x8000_0000_0000_0000,
            ;
        }
        if mid * mid <= n {
            lo = mid;
        } else {
            hi = mid;
        }
    }
    proof {
        lemma_sqrt_unique(n as int, lo as int);
    }
    lo
}

} // verus!
