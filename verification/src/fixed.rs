//! Fixed-point scalars.
//!
//! Every coordinate, length, angle and factor of this crate is a signed integer
//! that counts steps of `1 / UNIT`: the raw value `v` stands for the number
//! `v / UNIT`. Sums and differences of raw values are exact. A product or a
//! quotient is computed exactly on wide integers and rounded once, to the
//! nearest step, a tie going away from zero.

use vstd::prelude::*;
use vstd::arithmetic::div_mod::lemma_fundamental_div_mod;
use vstd::arithmetic::div_mod::lemma_fundamental_div_mod_converse;

verus! {

/// The raw value of the number one.
pub const UNIT: i64 = 65536;

/// The raw value of pi, rounded to the nearest step.
pub const PI: i64 = 205887;

/// Whether `v` can be held in an `i64`.
pub open spec fn fits_i64(v: int) -> bool {
    i64::MIN <= v <= i64::MAX
}

/// Whether `v` can be held in an `i32`.
pub open spec fn fits_i32(v: int) -> bool {
    i32::MIN <= v <= i32::MAX
}

/// The absolute value of `v`.
pub open spec fn magnitude(v: int) -> int {
    if v < 0 {
        -v
    } else {
        v
    }
}

/// The quotient of `n`, which is not negative, by the positive `d`, rounded
/// to the nearest integer, a half rounded up.
pub open spec fn round_half_up(n: int, d: int) -> int
    recommends
        0 <= n,
        0 < d,
{
    if 2 * (n % d) >= d {
        n / d + 1
    } else {
        n / d
    }
}

/// The integer nearest to the quotient `n / d`; where two integers are equally
/// near, the one farther from zero.
pub open spec fn round_div(n: int, d: int) -> int
    recommends
        d != 0,
{
    if d > 0 {
        if n >= 0 {
            round_half_up(n, d)
        } else {
            -round_half_up(-n, d)
        }
    } else {
        if n >= 0 {
            -round_half_up(n, -d)
        } else {
            round_half_up(-n, -d)
        }
    }
}

/// `v` limited to the interval from `lo` to `hi`.
pub open spec fn clamp_int(v: int, lo: int, hi: int) -> int
    recommends
        lo <= hi,
{
    if v < lo {
        lo
    } else if v > hi {
        hi
    } else {
        v
    }
}

/// Whether `r` is the integer part of the square root of `n`.
pub open spec fn is_floor_sqrt(n: int, r: int) -> bool {
    0 <= r && r * r <= n && n < (r + 1) * (r + 1)
}

/// The integer part of the square root of `n`, for `n` that is not negative.
pub open spec fn floor_sqrt(n: int) -> int
    recommends
        0 <= n,
{
    choose|r: int| is_floor_sqrt(n, r)
}

/// What rounding does to a quotient that is not negative: the result times
/// the divisor is within half a divisor of the numerator, and the result is
/// the integer part of the quotient plus one half.
pub proof fn lemma_round_half_up(n: int, d: int)
    requires
        0 <= n,
        0 < d,
    ensures
        0 <= round_half_up(n, d) <= n,
        2 * magnitude(round_half_up(n, d) * d - n) <= d,
        2 * d * round_half_up(n, d) <= 2 * n + d,
        round_half_up(n, d) == (2 * n + d) / (2 * d),
{
    let q = n / d;
    let r = n % d;
    let h = round_half_up(n, d);
    lemma_fundamental_div_mod(n, d);
    assert(0 <= r < d);
    assert(n == d * q + r);
    assert(q >= 0 && d * q >= q) by (nonlinear_arith)
        requires
            n == d * q + r,
            0 <= r < d,
            0 <= n,
            0 < d,
    ;
    assert(h * d - n == (if 2 * r >= d {
        d - r
    } else {
        -r
    })) by (nonlinear_arith)
        requires
            n == d * q + r,
            h == (if 2 * r >= d {
                q + 1
            } else {
                q
            }),
    ;
    assert(2 * d * h == 2 * (h * d)) by (nonlinear_arith);
    let rest = 2 * n + d - h * (2 * d);
    assert(0 <= rest < 2 * d && 2 * n + d == h * (2 * d) + rest) by (nonlinear_arith)
        requires
            n == d * q + r,
            0 <= r < d,
            h == (if 2 * r >= d {
                q + 1
            } else {
                q
            }),
            rest == 2 * n + d - h * (2 * d),
    ;
    lemma_fundamental_div_mod_converse(2 * n + d, 2 * d, h, rest);
}

/// A rounded quotient has the size of the rounded quotient of the sizes, and
/// the sign of the exact quotient.
pub proof fn lemma_round_div_sign(n: int, d: int)
    requires
        d != 0,
    ensures
        round_div(n, d) == (if (n < 0) != (d < 0) {
            -round_half_up(magnitude(n), magnitude(d))
        } else {
            round_half_up(magnitude(n), magnitude(d))
        }),
        magnitude(round_div(n, d)) == round_half_up(magnitude(n), magnitude(d)),
{
    lemma_round_half_up(magnitude(n), magnitude(d));
    if n == 0 {
        lemma_fundamental_div_mod_converse(0, magnitude(d), 0, 0);
    }
}

/// A rounded quotient is within half a divisor of the exact one.
pub proof fn lemma_round_div_nearest(n: int, d: int)
    requires
        d != 0,
    ensures
        2 * magnitude(round_div(n, d) * d - n) <= magnitude(d),
{
    let an = magnitude(n);
    let ad = magnitude(d);
    let h = round_half_up(an, ad);
    lemma_round_half_up(an, ad);
    lemma_round_div_sign(n, d);
    let signed = round_div(n, d);
    assert(magnitude(signed * d - n) == magnitude(h * ad - an)) by (nonlinear_arith)
        requires
            ad == magnitude(d),
            an == magnitude(n),
            d != 0,
            signed == (if (n < 0) != (d < 0) {
                -h
            } else {
                h
            }),
    ;
}

/// Rounding the quotient of a multiple of `d` by `d` gives the factor back.
pub proof fn lemma_round_div_exact(k: int, d: int)
    requires
        d != 0,
    ensures
        round_div(k * d, d) == k,
{
    let ad = magnitude(d);
    let ak = magnitude(k);
    assert(magnitude(k * d) == ak * ad) by (nonlinear_arith)
        requires
            ad == magnitude(d),
            ak == magnitude(k),
    ;
    lemma_fundamental_div_mod_converse(ak * ad, ad, ak, 0);
    lemma_round_div_sign(k * d, d);
    assert((k * d < 0) == ((k < 0) != (d < 0)) || k == 0) by (nonlinear_arith)
        requires
            d != 0,
    ;
    if k == 0 {
        assert(k * d == 0) by (nonlinear_arith)
            requires
                k == 0,
        ;
    }
}

/// Rounded division is odd in its numerator.
pub proof fn lemma_round_div_negate(n: int, d: int)
    requires
        d != 0,
    ensures
        round_div(-n, d) == -round_div(n, d),
{
    lemma_round_div_sign(n, d);
    lemma_round_div_sign(-n, d);
}

/// The size of a rounded quotient by a positive divisor: it is at most the
/// size of the numerator, and `d` times it exceeds the numerator's size by at
/// most half of `d`.
pub proof fn lemma_round_div_size(n: int, d: int)
    requires
        d > 0,
    ensures
        magnitude(round_div(n, d)) <= magnitude(n),
        2 * d * magnitude(round_div(n, d)) <= 2 * magnitude(n) + d,
        n >= 0 ==> round_div(n, d) >= 0,
        n <= 0 ==> round_div(n, d) <= 0,
{
    lemma_round_half_up(magnitude(n), d);
    lemma_round_div_sign(n, d);
}

/// Rounded division by a positive divisor keeps the order of the numerators.
pub proof fn lemma_round_div_monotonic(a: int, b: int, d: int)
    requires
        d > 0,
        a <= b,
    ensures
        round_div(a, d) <= round_div(b, d),
{
    lemma_round_div_size(a, d);
    lemma_round_div_size(b, d);
    lemma_round_half_up(magnitude(a), d);
    lemma_round_half_up(magnitude(b), d);
    if a >= 0 {
        vstd::arithmetic::div_mod::lemma_div_is_ordered(2 * a + d, 2 * b + d, 2 * d);
    } else if b < 0 {
        vstd::arithmetic::div_mod::lemma_div_is_ordered(2 * (-b) + d, 2 * (-a) + d, 2 * d);
    }
}

/// Every integer that is not negative has an integer part of its square root.
pub proof fn lemma_floor_sqrt_exists(n: int) -> (r: int)
    requires
        0 <= n,
    ensures
        is_floor_sqrt(n, r),
        r == floor_sqrt(n),
    decreases n,
{
    if n == 0 {
        assert(is_floor_sqrt(0, 0));
        lemma_floor_sqrt_unique(0, 0);
        0
    } else {
        let p = lemma_floor_sqrt_exists(n - 1);
        let r = p + 1;
        if r * r <= n {
            assert(n < (r + 1) * (r + 1)) by (nonlinear_arith)
                requires
                    n - 1 < r * r,
                    r >= 1,
            ;
            assert(is_floor_sqrt(n, r));
            lemma_floor_sqrt_unique(n, r);
            r
        } else {
            assert(p * p <= n) by (nonlinear_arith)
                requires
                    p * p <= n - 1,
            ;
            assert(n < (p + 1) * (p + 1));
            assert(is_floor_sqrt(n, p));
            lemma_floor_sqrt_unique(n, p);
            p
        }
    }
}

/// At most one integer is the integer part of a square root.
pub proof fn lemma_floor_sqrt_unique(n: int, r: int)
    requires
        is_floor_sqrt(n, r),
    ensures
        floor_sqrt(n) == r,
{
    let c = floor_sqrt(n);
    assert(is_floor_sqrt(n, c));
    assert(c == r) by (nonlinear_arith)
        requires
            0 <= r,
            r * r <= n,
            n < (r + 1) * (r + 1),
            0 <= c,
            c * c <= n,
            n < (c + 1) * (c + 1),
    ;
}

/// The absolute value of `v`, which fits in 128 bits without a sign.
fn magnitude_i128(v: i128) -> (m: u128)
    ensures
        m == magnitude(v as int),
{
    if v < 0 {
        ((-(v + 1)) as u128) + 1
    } else {
        v as u128
    }
}

/// Divides `n` by `d` and rounds to the nearest integer, a tie going away from
/// zero.
pub fn div_round(n: i128, d: i128) -> (q: i128)
    requires
        d != 0,
        n > i128::MIN,
    ensures
        q == round_div(n as int, d as int),
{
    let an: u128 = magnitude_i128(n);
    let ad: u128 = magnitude_i128(d);
    let whole: u128 = an / ad;
    let rest: u128 = an % ad;
    let up: u128 = if rest >= ad - rest {
        1
    } else {
        0
    };
    proof {
        lemma_round_half_up(an as int, ad as int);
        lemma_round_div_sign(n as int, d as int);
    }
    let size: u128 = whole + up;
    if (n < 0) != (d < 0) {
        -(size as i128)
    } else {
        size as i128
    }
}

/// The integer part of the square root of `n`.
pub fn isqrt(n: u128) -> (r: u64)
    ensures
        is_floor_sqrt(n as int, r as int),
        r == floor_sqrt(n as int),
{
    let mut lo: u128 = 0;
    let mut hi: u128 = 0x1_0000_0000_0000_0000;
    assert(n < hi * hi) by (nonlinear_arith)
        requires
            hi == 0x1_0000_0000_0000_0000,
            n <= u128::MAX,
    ;
    while hi - lo > 1
        invariant
            lo < hi <= 0x1_0000_0000_0000_0000,
            lo * lo <= n,
            n < hi * hi,
        decreases hi - lo,
    {
        let mid: u128 = lo + (hi - lo) / 2;
        assert(mid * mid <= 0xffff_ffff_ffff_ffff * 0xffff_ffff_ffff_ffff) by (nonlinear_arith)
            requires
                0 <= mid <= 0xffff_ffff_ffff_ffff,
        ;
        if mid * mid <= n {
            lo = mid;
        } else {
            hi = mid;
        }
    }
    proof {
        assert(hi == lo + 1);
        lemma_floor_sqrt_unique(n as int, lo as int);
    }
    lo as u64
}

} // verus!
