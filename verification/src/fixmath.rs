//! Signed fixed-point arithmetic helpers shared by the flight integrator,
//! the terrain generator and the camera controller.
//!
//! A value scaled by [`crate::FX_ONE`] stands for a real number; divisions
//! here truncate toward zero unless a function says otherwise.

use vstd::prelude::*;

verus! {

use vstd::arithmetic::div_mod::{lemma_fundamental_div_mod, lemma_fundamental_div_mod_converse};
use crate::FX_ONE;

/// Fixed-point value of pi in microradians.
pub const PI_FX: i64 = 3_141_593;

/// Fixed-point value of two pi, kept exactly twice `PI_FX` so that angle
/// folding stays consistent.
pub const TWO_PI_FX: i64 = 6_283_186;

/// Fixed-point value of pi / 2 in microradians.
pub const HALF_PI_FX: i64 = 1_570_796;

/// Degrees-to-radians divisor: 180 in fixed point.
pub const DEG_HALF_TURN_FX: i64 = 180_000_000;

/// Quotient of `n / d` rounded toward zero, for a positive divisor.
pub open spec fn div_trunc(n: int, d: int) -> int
    recommends
        d > 0,
{
    if n >= 0 {
        n / d
    } else {
        -((-n) / d)
    }
}

/// Truncating division on `i128`, matching [`div_trunc`].
pub fn div_trunc_i128(n: i128, d: i128) -> (r: i128)
    requires
        d > 0,
        n > i128::MIN,
    ensures
        r == div_trunc(n as int, d as int),
        n >= 0 ==> 0 <= r <= n,
        n < 0 ==> n <= r <= 0,
{
    if n >= 0 {
        n / d
    } else {
        let m = (-n) / d;
        -m
    }
}

/// Floor division on `i64`: rounds toward negative infinity, agreeing with
/// mathematical integer division for a positive divisor.
pub fn floor_div_i64(n: i64, d: i64) -> (r: i64)
    requires
        0 < d,
        i64::MIN + d < n,
    ensures
        r == n as int / d as int,
{
    if n >= 0 {
        n / d
    } else {
        let m = (-n - 1) / d;
        proof {
            lemma_fundamental_div_mod(-n - 1, d as int);
            let q = (-n - 1) as int / d as int;
            let s = (-n - 1) as int % d as int;
            assert((-n - 1) as int == (d as int) * q + s);
            assert((n as int) == (d as int) * (-q - 1) + (d - s - 1)) by (nonlinear_arith)
                requires
                    (-n - 1) as int == (d as int) * q + s,
            ;
            lemma_fundamental_div_mod_converse(n as int, d as int, -q - 1, d - s - 1);
        }
        -m - 1
    }
}

/// Ceiling division on `i64` for a positive divisor, written as
/// `floor((n + d - 1) / d)`.
pub fn ceil_div_i64(n: i64, d: i64) -> (r: i64)
    requires
        0 < d,
        i64::MIN + 2 * d < n,
        n < i64::MAX - d,
    ensures
        r == (n + d - 1) as int / d as int,
{
    floor_div_i64(n + d - 1, d)
}

/// Euclidean remainder on `i64` for a positive divisor; the result is in
/// `[0, d)`.
pub fn rem_euclid_i64(n: i64, d: i64) -> (r: i64)
    requires
        d > 0,
    ensures
        r == n as int % d as int,
        0 <= r < d,
{
    match n.checked_rem_euclid(d) {
        Some(r) => r,
        None => {
            proof {
                assert(false);
            }
            0
        },
    }
}

/// A truncating quotient is bounded by the quotient of any bound on the
/// numerator's magnitude.
pub proof fn lemma_div_trunc_bound(n: int, d: int, m: int)
    requires
        d > 0,
        0 <= m,
        -m <= n <= m,
    ensures
        -(m / d) <= div_trunc(n, d) <= m / d,
{
    if n >= 0 {
        vstd::arithmetic::div_mod::lemma_div_pos_is_pos(n, d);
        vstd::arithmetic::div_mod::lemma_div_is_ordered(n, m, d);
        vstd::arithmetic::div_mod::lemma_div_pos_is_pos(m, d);
    } else {
        vstd::arithmetic::div_mod::lemma_div_pos_is_pos(-n, d);
        vstd::arithmetic::div_mod::lemma_div_is_ordered(-n, m, d);
        vstd::arithmetic::div_mod::lemma_div_pos_is_pos(m, d);
    }
}

/// `r` is the integer square root of `x`.
pub open spec fn is_sqrt_of(r: int, x: int) -> bool {
    &&& 0 <= r
    &&& r * r <= x
    &&& x < (r + 1) * (r + 1)
}

/// The integer square root of a nonnegative value.
pub open spec fn spec_isqrt(x: int) -> int {
    choose|r: int| is_sqrt_of(r, x)
}

/// Every nonnegative integer has an integer square root, and `spec_isqrt`
/// denotes it.
pub proof fn lemma_isqrt_exists(x: int)
    requires
        0 <= x,
    ensures
        is_sqrt_of(spec_isqrt(x), x),
    decreases x,
{
    if x == 0 {
        assert(is_sqrt_of(0, 0));
    } else {
        lemma_isqrt_exists(x - 1);
        let r = spec_isqrt(x - 1);
        if (r + 1) * (r + 1) <= x {
            assert(x - 1 < (r + 1) * (r + 1));
            assert(x == (r + 1) * (r + 1));
            assert((r + 1 + 1) * (r + 1 + 1) > x) by (nonlinear_arith)
                requires
                    x == (r + 1) * (r + 1),
                    r >= 0,
            ;
            assert(is_sqrt_of(r + 1, x));
        } else {
            assert(is_sqrt_of(r, x));
        }
    }
}

/// The integer square root is unique.
pub proof fn lemma_isqrt_unique(a: int, b: int, x: int)
    requires
        is_sqrt_of(a, x),
        is_sqrt_of(b, x),
    ensures
        a == b,
{
    assert(a == b) by (nonlinear_arith)
        requires
            0 <= a,
            0 <= b,
            a * a <= x,
            x < (a + 1) * (a + 1),
            b * b <= x,
            x < (b + 1) * (b + 1),
    ;
}

/// Integer square root of a `u128`, by bisection.
pub fn isqrt_u128(x: u128) -> (r: u128)
    ensures
        r as int == spec_isqrt(x as int),
        is_sqrt_of(r as int, x as int),
{
    let mut lo: u128 = 0;
    let mut hi: u128 = 0x1_0000_0000_0000_0000;
    proof {
        assert((hi as int) * (hi as int) > x as int);
    }
    while lo + 1 < hi
        invariant
            0 <= lo < hi,
            hi <= 0x1_0000_0000_0000_0000,
            (lo as int) * (lo as int) <= x as int,
            (x as int) < (hi as int) * (hi as int),
        decreases hi - lo,
    {
        let mid = lo + (hi - lo) / 2;
        proof {
            assert(lo < mid < hi);
            assert((mid as int) * (mid as int) < 0x1_0000_0000_0000_0000_0000_0000_0000_0000)
                by (nonlinear_arith)
                requires
                    0 <= (mid as int) < 0x1_0000_0000_0000_0000,
            ;
        }
        if mid * mid <= x {
            lo = mid;
        } else {
            hi = mid;
        }
    }
    proof {
        assert(hi == lo + 1);
        assert(is_sqrt_of(lo as int, x as int));
        lemma_isqrt_exists(x as int);
        lemma_isqrt_unique(lo as int, spec_isqrt(x as int), x as int);
    }
    lo
}

/// Fixed-point sine of an angle in microradians: the angle is reduced
/// modulo two pi, folded onto the first quadrant, approximated by the
/// cubic-and-quintic truncation of the sine series and clamped to
/// `[-FX_ONE, FX_ONE]`.
#[verifier::opaque]
pub open spec fn spec_sin_fx(a: int) -> int {
    let x0 = a % (TWO_PI_FX as int);
    let neg = x0 >= PI_FX;
    let x1 = if neg {
        x0 - PI_FX
    } else {
        x0
    };
    let x2 = if 2 * x1 > PI_FX {
        PI_FX - x1
    } else {
        x1
    };
    let q = (x2 * x2) / (FX_ONE as int);
    let c = (q * x2) / (FX_ONE as int);
    let f = (c * q) / (FX_ONE as int);
    let raw = x2 - c / 6 + f / 120;
    let clamped = if raw > FX_ONE {
        FX_ONE as int
    } else if raw < 0 {
        0
    } else {
        raw
    };
    if neg {
        -clamped
    } else {
        clamped
    }
}

/// The fixed-point sine never leaves `[-1, 1]`.
pub proof fn lemma_sin_fx_bounds(a: int)
    ensures
        -(FX_ONE as int) <= spec_sin_fx(a) <= FX_ONE as int,
{
    reveal(spec_sin_fx);
}

/// Fixed-point cosine, defined by the quarter-turn shift of the sine.
pub open spec fn spec_cos_fx(a: int) -> int {
    spec_sin_fx(a + HALF_PI_FX)
}

/// Fixed-point sine; the result never leaves `[-FX_ONE, FX_ONE]`.
pub fn sin_fx(a: i64) -> (r: i64)
    ensures
        r == spec_sin_fx(a as int),
        -FX_ONE <= r <= FX_ONE,
{
    proof {
        reveal(spec_sin_fx);
    }
    let x0 = rem_euclid_i64(a, TWO_PI_FX);
    let neg = x0 >= PI_FX;
    let x1 = if neg {
        x0 - PI_FX
    } else {
        x0
    };
    let x2 = if 2 * x1 > PI_FX {
        PI_FX - x1
    } else {
        x1
    };
    proof {
        assert(0 <= x2 <= 1_570_797);
        assert(x2 * x2 <= 1_570_797 * 1_570_797) by (nonlinear_arith)
            requires
                0 <= x2 <= 1_570_797,
        ;
    }
    let q = (x2 * x2) / FX_ONE;
    proof {
        assert(0 <= q <= 2_467_404);
        assert(q * x2 <= 2_467_404 * 1_570_797) by (nonlinear_arith)
            requires
                0 <= q <= 2_467_404,
                0 <= x2 <= 1_570_797,
        ;
    }
    let c = (q * x2) / FX_ONE;
    proof {
        assert(0 <= c <= 3_875_794);
        assert(c * q <= 3_875_794 * 2_467_404) by (nonlinear_arith)
            requires
                0 <= c <= 3_875_794,
                0 <= q <= 2_467_404,
        ;
    }
    let f = (c * q) / FX_ONE;
    proof {
        assert(0 <= f <= 9_600_000);
    }
    let raw = x2 - c / 6 + f / 120;
    let clamped = if raw > FX_ONE {
        FX_ONE
    } else if raw < 0 {
        0
    } else {
        raw
    };
    if neg {
        -clamped
    } else {
        clamped
    }
}

/// Fixed-point cosine; the result never leaves `[-FX_ONE, FX_ONE]`.
pub fn cos_fx(a: i64) -> (r: i64)
    requires
        a < i64::MAX - HALF_PI_FX,
    ensures
        r == spec_cos_fx(a as int),
        -FX_ONE <= r <= FX_ONE,
{
    sin_fx(a + HALF_PI_FX)
}

/// Conversion of an angle in microdegrees to microradians.
pub open spec fn spec_deg_to_rad(d: int) -> int {
    div_trunc(d * (PI_FX as int), DEG_HALF_TURN_FX as int)
}

/// Converts microdegrees to microradians; the magnitude never grows.
pub fn deg_to_rad_fx(d: i64) -> (r: i64)
    requires
        d > i64::MIN,
    ensures
        r == spec_deg_to_rad(d as int),
        d >= 0 ==> 0 <= r <= d,
        d < 0 ==> d <= r <= 0,
{
    proof {
        assert((d as int) * (PI_FX as int) > i128::MIN) by (nonlinear_arith)
            requires
                i64::MIN <= d <= i64::MAX,
        ;
    }
    let wide = div_trunc_i128((d as i128) * (PI_FX as i128), DEG_HALF_TURN_FX as i128);
    proof {
        let n = (d as int) * (PI_FX as int);
        if d >= 0 {
            assert((d as int) * (PI_FX as int) <= (d as int) * (DEG_HALF_TURN_FX as int))
                by (nonlinear_arith)
                requires
                    d >= 0,
            ;
            assert(n / (DEG_HALF_TURN_FX as int) <= d as int) by {
                vstd::arithmetic::div_mod::lemma_div_is_ordered(
                    n,
                    (d as int) * (DEG_HALF_TURN_FX as int),
                    DEG_HALF_TURN_FX as int,
                );
                vstd::arithmetic::div_mod::lemma_div_by_multiple(d as int, DEG_HALF_TURN_FX as int);
            };
        } else {
            assert(-((d as int) * (PI_FX as int)) <= (-d as int) * (DEG_HALF_TURN_FX as int))
                by (nonlinear_arith)
                requires
                    d < 0,
            ;
            assert((-n) / (DEG_HALF_TURN_FX as int) <= -d as int) by {
                vstd::arithmetic::div_mod::lemma_div_is_ordered(
                    -n,
                    (-d as int) * (DEG_HALF_TURN_FX as int),
                    DEG_HALF_TURN_FX as int,
                );
                vstd::arithmetic::div_mod::lemma_div_by_multiple(
                    -d as int,
                    DEG_HALF_TURN_FX as int,
                );
            };
        }
    }
    wide as i64
}

} // verus!
