//! Sine and cosine of fixed-point angles.
//!
//! An angle is a raw scalar in radians. It is first folded into one turn of
//! `FULL_TURN` steps, then into a quarter turn. In the first half of the
//! quarter the sine comes from a short power series and the cosine is the
//! integer square root that completes it on the unit circle; in the second
//! half the two change places. So the pair never leaves the unit circle by
//! more than a rounding step, whatever the angle.

use vstd::prelude::*;
use crate::fixed::UNIT;
use crate::fixed::PI;
use crate::fixed::fits_i64;
use crate::fixed::round_div;
use crate::fixed::div_round;
use crate::fixed::lemma_round_div_size;
use crate::fixed::magnitude;
use crate::fixed::floor_sqrt;
use crate::fixed::is_floor_sqrt;
use crate::fixed::isqrt;
use crate::fixed::lemma_floor_sqrt_unique;
use crate::fixed::lemma_floor_sqrt_exists;

verus! {

/// The raw length of a quarter turn: half of pi, rounded up to an even count of
/// steps.
pub const QUARTER_TURN: i64 = 102944;

/// The raw length of an eighth of a turn.
pub const EIGHTH_TURN: i64 = 51472;

/// The raw length of a full turn, four quarter turns.
pub const FULL_TURN: i64 = 411776;

/// The sine of the raw angle `r` by its power series up to the seventh power,
/// in nested form, each quotient rounded down. It is used between zero and an
/// eighth of a turn.
pub open spec fn sine_series(r: int) -> int {
    let x2 = r * r / (UNIT as int);
    let t1 = UNIT - x2 / 42;
    let t2 = UNIT - (x2 * t1 / (UNIT as int)) / 20;
    let t3 = UNIT - (x2 * t2 / (UNIT as int)) / 6;
    r * t3 / (UNIT as int)
}

/// What completes `s` on the unit circle: the integer part of the square root
/// of one minus the square of `s`.
pub open spec fn circle_complement(s: int) -> int {
    floor_sqrt(UNIT * UNIT - s * s)
}

/// The sine of an angle `r` within the first quarter turn.
pub open spec fn quarter_sine(r: int) -> int {
    if r <= EIGHTH_TURN {
        sine_series(r)
    } else {
        circle_complement(sine_series(QUARTER_TURN - r))
    }
}

/// The cosine of an angle `r` within the first quarter turn.
pub open spec fn quarter_cosine(r: int) -> int {
    if r <= EIGHTH_TURN {
        circle_complement(sine_series(r))
    } else {
        sine_series(QUARTER_TURN - r)
    }
}

/// The sine of an angle `a` that is not negative.
pub open spec fn sine_of_turned(a: int) -> int {
    let t = a % (FULL_TURN as int);
    let q = t / (QUARTER_TURN as int);
    let r = t % (QUARTER_TURN as int);
    if q == 0 {
        quarter_sine(r)
    } else if q == 1 {
        quarter_cosine(r)
    } else if q == 2 {
        -quarter_sine(r)
    } else {
        -quarter_cosine(r)
    }
}

/// The cosine of an angle `a` that is not negative.
pub open spec fn cosine_of_turned(a: int) -> int {
    let t = a % (FULL_TURN as int);
    let q = t / (QUARTER_TURN as int);
    let r = t % (QUARTER_TURN as int);
    if q == 0 {
        quarter_cosine(r)
    } else if q == 1 {
        -quarter_sine(r)
    } else if q == 2 {
        -quarter_cosine(r)
    } else {
        quarter_sine(r)
    }
}

/// The sine of the raw angle `a`, as a raw scalar. It is odd by definition.
pub open spec fn sine(a: int) -> int {
    if a >= 0 {
        sine_of_turned(a)
    } else {
        -sine_of_turned(-a)
    }
}

/// The cosine of the raw angle `a`, as a raw scalar. It is even by definition.
pub open spec fn cosine(a: int) -> int {
    cosine_of_turned(magnitude(a))
}

/// Whether the pair `(s, c)` lies on the unit circle up to rounding: neither
/// exceeds one in size, and the sum of their squares is at most one and falls
/// short of it by at most two steps.
pub open spec fn on_unit_circle(s: int, c: int) -> bool {
    &&& -UNIT <= s <= UNIT
    &&& -UNIT <= c <= UNIT
    &&& UNIT * UNIT - 2 * UNIT <= s * s + c * c <= UNIT * UNIT
}

/// Between zero and an eighth of a turn the series stays between zero and its
/// argument.
pub proof fn lemma_sine_series_range(r: int)
    requires
        0 <= r <= EIGHTH_TURN,
    ensures
        0 <= sine_series(r) <= r,
{
    let u = UNIT as int;
    let x2 = r * r / u;
    assert(0 <= r * r <= 51472 * 51472) by (nonlinear_arith)
        requires
            0 <= r <= 51472,
    ;
    assert(0 <= x2 <= 40426);
    let t1 = u - x2 / 42;
    assert(0 < t1 <= u);
    assert(0 <= x2 * t1 <= x2 * u) by (nonlinear_arith)
        requires
            0 <= x2,
            0 < t1 <= u,
    ;
    assert(x2 * u / u == x2) by (nonlinear_arith)
        requires
            u == 65536,
    ;
    vstd::arithmetic::div_mod::lemma_div_is_ordered(x2 * t1, x2 * u, u);
    let m1 = x2 * t1 / u;
    assert(0 <= m1 <= x2);
    let t2 = u - m1 / 20;
    assert(0 < t2 <= u);
    assert(0 <= x2 * t2 <= x2 * u) by (nonlinear_arith)
        requires
            0 <= x2,
            0 < t2 <= u,
    ;
    vstd::arithmetic::div_mod::lemma_div_is_ordered(x2 * t2, x2 * u, u);
    let m2 = x2 * t2 / u;
    assert(0 <= m2 <= x2);
    let t3 = u - m2 / 6;
    assert(0 < t3 <= u);
    assert(0 <= r * t3 <= r * u) by (nonlinear_arith)
        requires
            0 <= r,
            0 < t3 <= u,
    ;
    assert(r * u / u == r) by (nonlinear_arith)
        requires
            u == 65536,
    ;
    vstd::arithmetic::div_mod::lemma_div_is_ordered(r * t3, r * u, u);
}

/// A value between zero and one and its complement lie on the unit circle.
pub proof fn lemma_circle_complement(s: int)
    requires
        0 <= s <= UNIT,
    ensures
        0 <= circle_complement(s) <= UNIT,
        on_unit_circle(s, circle_complement(s)),
        on_unit_circle(circle_complement(s), s),
        s == 0 ==> circle_complement(s) == UNIT,
{
    let u = UNIT as int;
    let n = u * u - s * s;
    assert(0 <= n <= u * u) by (nonlinear_arith)
        requires
            0 <= s <= u,
            n == u * u - s * s,
    ;
    // some integer is the floor of the root: the one that the search finds
    let w = lemma_floor_sqrt_exists(n);
    lemma_floor_sqrt_unique(n, w);
    let c = circle_complement(s);
    assert(c == w);
    assert(c <= u) by (nonlinear_arith)
        requires
            0 <= c,
            c * c <= n,
            n <= u * u,
            u == 65536,
    ;
    assert(s * s + c * c >= u * u - 2 * u) by (nonlinear_arith)
        requires
            n == u * u - s * s,
            n < (c + 1) * (c + 1),
            0 <= c <= u,
    ;
    if s == 0 {
        assert(is_floor_sqrt(n, u)) by (nonlinear_arith)
            requires
                n == u * u,
                u == 65536,
        ;
        lemma_floor_sqrt_unique(n, u);
    }
}

/// Within the first quarter turn sine and cosine lie between zero and one, on
/// the unit circle.
pub proof fn lemma_quarter_circle(r: int)
    requires
        0 <= r < QUARTER_TURN,
    ensures
        0 <= quarter_sine(r) <= UNIT,
        0 <= quarter_cosine(r) <= UNIT,
        on_unit_circle(quarter_sine(r), quarter_cosine(r)),
        r == 0 ==> quarter_sine(r) == 0 && quarter_cosine(r) == UNIT,
{
    if r <= EIGHTH_TURN {
        lemma_sine_series_range(r);
        lemma_circle_complement(sine_series(r));
    } else {
        lemma_sine_series_range(QUARTER_TURN - r);
        lemma_circle_complement(sine_series(QUARTER_TURN - r));
    }
}

/// Sine and cosine of any angle lie on the unit circle up to rounding.
pub proof fn lemma_unit_circle(a: int)
    ensures
        on_unit_circle(sine(a), cosine(a)),
{
    let m = magnitude(a);
    let t = m % (FULL_TURN as int);
    let q = t / (QUARTER_TURN as int);
    let r = t % (QUARTER_TURN as int);
    assert(0 <= t < FULL_TURN);
    assert(0 <= q <= 3);
    lemma_quarter_circle(r);
    let s = quarter_sine(r);
    let c = quarter_cosine(r);
    assert((-s) * (-s) == s * s) by (nonlinear_arith);
    assert((-c) * (-c) == c * c) by (nonlinear_arith);
}

/// The sine of the opposite angle is the opposite sine; the cosine is the same.
pub proof fn lemma_opposite_angle(a: int)
    ensures
        sine(-a) == -sine(a),
        cosine(-a) == cosine(a),
{
    lemma_quarter_circle(0);
}

/// The angle zero has sine zero and cosine one, exactly.
pub proof fn lemma_zero_angle()
    ensures
        sine(0) == 0,
        cosine(0) == UNIT,
{
    lemma_quarter_circle(0);
}

/// At each whole number of quarter turns sine and cosine are exact: zero, one
/// or minus one.
pub proof fn lemma_quarter_turns(n: int)
    ensures
        n % 4 == 0 ==> sine(n * QUARTER_TURN) == 0 && cosine(n * QUARTER_TURN) == UNIT,
        n % 4 == 1 ==> sine(n * QUARTER_TURN) == UNIT && cosine(n * QUARTER_TURN) == 0,
        n % 4 == 2 ==> sine(n * QUARTER_TURN) == 0 && cosine(n * QUARTER_TURN) == -UNIT,
        n % 4 == 3 ==> sine(n * QUARTER_TURN) == -UNIT && cosine(n * QUARTER_TURN) == 0,
{
    lemma_quarter_circle(0);
    lemma_opposite_angle(n * QUARTER_TURN);
    let m = magnitude(n);
    let a = m * QUARTER_TURN;
    assert(magnitude(n * QUARTER_TURN) == a) by (nonlinear_arith)
        requires
            m == magnitude(n),
            a == m * QUARTER_TURN,
            QUARTER_TURN == 102944,
    ;
    // m quarter turns are m / 4 full turns and m % 4 quarter turns
    let k = m / 4;
    let j = m % 4;
    assert(a == k * (FULL_TURN as int) + j * (QUARTER_TURN as int)) by (nonlinear_arith)
        requires
            m == 4 * k + j,
            a == m * QUARTER_TURN,
            FULL_TURN == 411776,
            QUARTER_TURN == 102944,
    ;
    let t = j * (QUARTER_TURN as int);
    vstd::arithmetic::div_mod::lemma_fundamental_div_mod_converse(a, FULL_TURN as int, k, t);
    vstd::arithmetic::div_mod::lemma_fundamental_div_mod_converse(t, QUARTER_TURN as int, j, 0);
}

/// The angle of `degrees` raw degrees in raw radians.
pub open spec fn radians(degrees: int) -> int {
    round_div(degrees * PI, 180 * UNIT)
}

/// The angle of `radians` raw radians in raw degrees.
pub open spec fn degrees(radians: int) -> int {
    round_div(radians * (180 * UNIT), PI as int)
}

/// Converts an angle from raw degrees to raw radians.
pub fn rad(deg: i64) -> (r: i64)
    ensures
        r == radians(deg as int),
{
    proof {
        assert(-0x8000_0000_0000_0000 * 205887 <= deg * PI <= 0x8000_0000_0000_0000 * 205887)
            by (nonlinear_arith)
            requires
                -0x8000_0000_0000_0000 <= deg <= 0x8000_0000_0000_0000,
                PI == 205887,
        ;
        lemma_round_div_size(deg * PI, 180 * UNIT);
        let q = crate::fixed::magnitude(round_div(deg * PI, 180 * UNIT));
        assert(q <= 0x7fff_ffff_ffff_ffff) by (nonlinear_arith)
            requires
                2 * (180 * 65536) * q <= 2 * (0x8000_0000_0000_0000 * 205887) + 180 * 65536,
        ;
    }
    div_round((deg as i128) * (PI as i128), 180 * (UNIT as i128)) as i64
}

/// Converts an angle from raw radians to raw degrees.
pub fn deg(rad: i64) -> (d: i64)
    requires
        fits_i64(degrees(rad as int)),
    ensures
        d == degrees(rad as int),
{
    proof {
        assert(-0x8000_0000_0000_0000 * 11796480 <= rad * (180 * UNIT) <= 0x8000_0000_0000_0000
            * 11796480) by (nonlinear_arith)
            requires
                -0x8000_0000_0000_0000 <= rad <= 0x8000_0000_0000_0000,
                180 * UNIT == 11796480,
        ;
    }
    div_round((rad as i128) * (180 * (UNIT as i128)), PI as i128) as i64
}

/// The power series of the sine, for an angle of at most an eighth of a turn.
fn series_sine(r: i64) -> (s: i64)
    requires
        0 <= r <= EIGHTH_TURN,
    ensures
        s == sine_series(r as int),
        0 <= s <= r,
{
    proof {
        lemma_sine_series_range(r as int);
        assert(0 <= r * r <= 51472 * 51472) by (nonlinear_arith)
            requires
                0 <= r <= 51472,
        ;
    }
    let x2: i64 = r * r / UNIT;
    let t1: i64 = UNIT - x2 / 42;
    assert(0 <= x2 * t1 <= 40426 * 65536) by (nonlinear_arith)
        requires
            0 <= x2 <= 40426,
            0 <= t1 <= 65536,
    ;
    let m1: i64 = x2 * t1 / UNIT;
    let t2: i64 = UNIT - m1 / 20;
    assert(0 <= x2 * t2 <= 40426 * 65536) by (nonlinear_arith)
        requires
            0 <= x2 <= 40426,
            0 <= t2 <= 65536,
    ;
    let m2: i64 = x2 * t2 / UNIT;
    let t3: i64 = UNIT - m2 / 6;
    assert(0 <= r * t3 <= 51472 * 65536) by (nonlinear_arith)
        requires
            0 <= r <= 51472,
            0 <= t3 <= 65536,
    ;
    r * t3 / UNIT
}

/// What completes `s` on the unit circle.
fn complement(s: i64) -> (c: i64)
    requires
        0 <= s <= UNIT,
    ensures
        c == circle_complement(s as int),
        0 <= c <= UNIT,
{
    proof {
        lemma_circle_complement(s as int);
        assert(0 <= s * s <= 65536 * 65536) by (nonlinear_arith)
            requires
                0 <= s <= 65536,
        ;
    }
    let n: i64 = UNIT * UNIT - s * s;
    let root: u64 = isqrt(n as u128);
    root as i64
}

/// Sine and cosine of an angle within the first quarter turn.
fn quarter_sin_cos(r: i64) -> (sc: (i64, i64))
    requires
        0 <= r < QUARTER_TURN,
    ensures
        sc.0 == quarter_sine(r as int),
        sc.1 == quarter_cosine(r as int),
        0 <= sc.0 <= UNIT,
        0 <= sc.1 <= UNIT,
{
    proof {
        lemma_quarter_circle(r as int);
    }
    if r <= EIGHTH_TURN {
        let s: i64 = series_sine(r);
        (s, complement(s))
    } else {
        let c: i64 = series_sine(QUARTER_TURN - r);
        (complement(c), c)
    }
}

/// The sine and the cosine of `angle`, in this order.
pub fn sin_cos(angle: i64) -> (sc: (i64, i64))
    ensures
        sc.0 == sine(angle as int),
        sc.1 == cosine(angle as int),
        on_unit_circle(sc.0 as int, sc.1 as int),
{
    proof {
        lemma_unit_circle(angle as int);
    }
    let wide: i128 = angle as i128;
    let size: i128 = if wide < 0 {
        -wide
    } else {
        wide
    };
    let t: i64 = (size % (FULL_TURN as i128)) as i64;
    let q: i64 = t / QUARTER_TURN;
    let r: i64 = t % QUARTER_TURN;
    let (s0, c0) = quarter_sin_cos(r);
    let (s, c): (i64, i64) = if q == 0 {
        (s0, c0)
    } else if q == 1 {
        (c0, -s0)
    } else if q == 2 {
        (-s0, -c0)
    } else {
        (-c0, s0)
    };
    if angle < 0 {
        (-s, c)
    } else {
        (s, c)
    }
}

} // verus!
