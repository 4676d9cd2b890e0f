//! Points and vectors of the three-dimensional world, and pixels of the screen.
//!
//! A `Point3D` holds three raw fixed-point coordinates. Its view is a `Vec3`,
//! the same three numbers as unbounded integers, on which the contracts are
//! stated. A function that returns a `Point3D` or a scalar asks only that the
//! exact result can be held in 64 bits.

use vstd::prelude::*;
use crate::fixed::UNIT;
use crate::fixed::fits_i64;
use crate::fixed::magnitude;
use crate::fixed::round_div;
use crate::fixed::clamp_int;
use crate::fixed::floor_sqrt;
use crate::fixed::is_floor_sqrt;
use crate::fixed::div_round;
use crate::fixed::isqrt;
use crate::fixed::lemma_round_div_nearest;
use crate::fixed::lemma_round_div_size;
use crate::fixed::lemma_round_div_exact;
use crate::fixed::lemma_round_div_monotonic;
use crate::fixed::lemma_round_div_negate;
use crate::rotation::Angles;
use crate::rotation::Rotation3;
use crate::trig::sine;
use crate::trig::cosine;
use crate::trig::on_unit_circle;
use crate::trig::sin_cos;
use crate::trig::lemma_unit_circle;
use crate::trig::lemma_opposite_angle;
use crate::trig::lemma_zero_angle;

verus! {

/// The largest size of a coordinate of the world: 32768 units. Within it
/// every operation of the renderer can be carried out in 64 bits.
pub const WORLD_LIMIT: i64 = 0x8000_0000;

/// The largest size of a coordinate for which `Point3D::angle` is defined.
pub const ANGLE_LIMIT: i64 = 0x40_0000_0000_0000;

/// A vector of three unbounded integers: what a `Point3D` stands for.
pub struct Vec3 {
    pub x: int,
    pub y: int,
    pub z: int,
}

impl Vec3 {
    /// Whether each coordinate can be held in an `i64`.
    pub open spec fn fits(self) -> bool {
        fits_i64(self.x) && fits_i64(self.y) && fits_i64(self.z)
    }

    /// Whether no coordinate exceeds `limit` in size.
    pub open spec fn within(self, limit: int) -> bool {
        &&& -limit <= self.x <= limit
        &&& -limit <= self.y <= limit
        &&& -limit <= self.z <= limit
    }

    /// Whether the point lies in the world: no coordinate exceeds
    /// `WORLD_LIMIT` in size.
    pub open spec fn in_world(self) -> bool {
        self.within(WORLD_LIMIT as int)
    }

    /// The sum of two vectors.
    pub open spec fn add(self, rhs: Vec3) -> Vec3 {
        Vec3 { x: self.x + rhs.x, y: self.y + rhs.y, z: self.z + rhs.z }
    }

    /// The difference of two vectors.
    pub open spec fn sub(self, rhs: Vec3) -> Vec3 {
        Vec3 { x: self.x - rhs.x, y: self.y - rhs.y, z: self.z - rhs.z }
    }

    /// The opposite vector.
    pub open spec fn neg(self) -> Vec3 {
        Vec3 { x: -self.x, y: -self.y, z: -self.z }
    }

    /// The vector taken `n` times.
    pub open spec fn times(self, n: int) -> Vec3 {
        Vec3 { x: self.x * n, y: self.y * n, z: self.z * n }
    }

    /// The vector scaled by the raw factor `k`, each coordinate rounded.
    pub open spec fn scale(self, k: int) -> Vec3 {
        Vec3 {
            x: round_div(self.x * k, UNIT as int),
            y: round_div(self.y * k, UNIT as int),
            z: round_div(self.z * k, UNIT as int),
        }
    }

    /// The sum of the products of the coordinates, before any rounding.
    pub open spec fn dot_exact(self, rhs: Vec3) -> int {
        self.x * rhs.x + self.y * rhs.y + self.z * rhs.z
    }

    /// The dot product as a raw scalar: the exact sum, rounded once.
    pub open spec fn dot(self, rhs: Vec3) -> int {
        round_div(self.dot_exact(rhs), UNIT as int)
    }

    /// The cross product, each coordinate computed exactly and rounded once.
    pub open spec fn cross(self, rhs: Vec3) -> Vec3 {
        Vec3 {
            x: round_div(self.y * rhs.z - self.z * rhs.y, UNIT as int),
            y: round_div(self.z * rhs.x - self.x * rhs.z, UNIT as int),
            z: round_div(self.x * rhs.y - self.y * rhs.x, UNIT as int),
        }
    }

    /// The Euclidean length, rounded down to a whole step.
    pub open spec fn norm(self) -> int {
        floor_sqrt(self.dot_exact(self))
    }

    /// The vector of length one in the same direction, each coordinate rounded;
    /// it is meant for a vector whose length is not zero.
    pub open spec fn normalize(self) -> Vec3
        recommends
            self.norm() != 0,
    {
        Vec3 {
            x: round_div(self.x * UNIT, self.norm()),
            y: round_div(self.y * UNIT, self.norm()),
            z: round_div(self.z * UNIT, self.norm()),
        }
    }

    /// The cosine of the angle between two vectors as a raw scalar: the exact
    /// dot product over the product of the lengths, rounded once and limited to
    /// the interval from minus one to one. It is meant for two vectors whose
    /// lengths are not zero.
    pub open spec fn angle(self, rhs: Vec3) -> int
        recommends
            self.norm() * rhs.norm() != 0,
    {
        clamp_int(
            round_div(self.dot_exact(rhs) * UNIT, self.norm() * rhs.norm()),
            -UNIT as int,
            UNIT as int,
        )
    }

    /// `self` turned about the line through `center` along the first axis.
    pub open spec fn rotate_x(self, center: Vec3, angle: int) -> Vec3 {
        let t = turn(self.y - center.y, self.z - center.z, sine(angle), cosine(angle));
        Vec3 { x: self.x, y: t.0 + center.y, z: t.1 + center.z }
    }

    /// `self` turned about the line through `center` along the second axis.
    pub open spec fn rotate_y(self, center: Vec3, angle: int) -> Vec3 {
        let t = turn(self.x - center.x, self.z - center.z, -sine(angle), cosine(angle));
        Vec3 { x: t.0 + center.x, y: self.y, z: t.1 + center.z }
    }

    /// `self` turned about the line through `center` along the third axis.
    pub open spec fn rotate_z(self, center: Vec3, angle: int) -> Vec3 {
        let t = turn(self.x - center.x, self.y - center.y, sine(angle), cosine(angle));
        Vec3 { x: t.0 + center.x, y: t.1 + center.y, z: self.z }
    }

    /// `self` turned about `center`: about the first axis, then the second,
    /// then the third.
    pub open spec fn rotate(self, center: Vec3, rot: Angles) -> Vec3 {
        self.rotate_x(center, rot.x).rotate_y(center, rot.y).rotate_z(center, rot.z)
    }

    /// Whether the point fits in 64 bits after each of the three turns.
    pub open spec fn rotate_fits(self, center: Vec3, rot: Angles) -> bool {
        &&& self.rotate_x(center, rot.x).fits()
        &&& self.rotate_x(center, rot.x).rotate_y(center, rot.y).fits()
        &&& self.rotate(center, rot).fits()
    }
}

/// The pair `(u, v)` turned in its plane by the angle of sine `s` and cosine
/// `c`: the standard formula, each coordinate rounded once.
pub open spec fn turn(u: int, v: int, s: int, c: int) -> (int, int) {
    (round_div(u * c - v * s, UNIT as int), round_div(u * s + v * c, UNIT as int))
}

/// Whether `back` is as near to `start` as a turn and the opposite turn about
/// `pivot` leave it: within a step and a half, and two steps more for each
/// unit of distance between `start` and `pivot`.
pub open spec fn returns_near(back: int, start: int, pivot: int) -> bool {
    2 * UNIT * magnitude(back - start) <= 4 * magnitude(start - pivot) + 3 * UNIT
}

/// The product of two 64-bit integers stays well inside 128 bits.
pub proof fn lemma_product_range(a: int, b: int)
    requires
        fits_i64(a),
        fits_i64(b),
    ensures
        -0x3fff_ffff_ffff_ffff_8000_0000_0000_0000 <= a * b
            <= 0x4000_0000_0000_0000_0000_0000_0000_0000,
{
    assert(-0x3fff_ffff_ffff_ffff_8000_0000_0000_0000 <= a * b
        <= 0x4000_0000_0000_0000_0000_0000_0000_0000) by (nonlinear_arith)
        requires
            -0x8000_0000_0000_0000 <= a <= 0x7fff_ffff_ffff_ffff,
            -0x8000_0000_0000_0000 <= b <= 0x7fff_ffff_ffff_ffff,
    ;
}

/// A numerator whose rounded quotient by one fits in 64 bits is itself small.
pub proof fn lemma_rounded_fits(n: int)
    requires
        fits_i64(round_div(n, UNIT as int)),
    ensures
        -0x8000_0000_0000_0000_8000 <= n <= 0x8000_0000_0000_0000_8000,
{
    lemma_round_div_nearest(n, UNIT as int);
}

/// A numerator of size `bound` at most has a rounded quotient by one of size
/// `bound / UNIT + 1` at most.
pub proof fn lemma_rounded_size(n: int, bound: int)
    requires
        -bound <= n <= bound,
    ensures
        -(bound / (UNIT as int) + 1) <= round_div(n, UNIT as int) <= bound / (UNIT as int) + 1,
{
    lemma_round_div_nearest(n, UNIT as int);
}

/// A point or a vector of the world, by three raw fixed-point coordinates.
#[derive(Debug, Clone, Copy, PartialEq, Eq, Structural)]
pub struct Point3D {
    pub x: i64,
    pub y: i64,
    pub z: i64,
}

impl View for Point3D {
    type V = Vec3;

    open spec fn view(&self) -> Vec3 {
        Vec3 { x: self.x as int, y: self.y as int, z: self.z as int }
    }
}

impl Point3D {
    /// The point with the raw coordinates `x`, `y` and `z`.
    pub fn new(x: i64, y: i64, z: i64) -> (p: Point3D)
        ensures
            p.x == x,
            p.y == y,
            p.z == z,
    {
        Point3D { x, y, z }
    }

    /// The origin.
    pub fn zero() -> (p: Point3D)
        ensures
            p@ == (Vec3 { x: 0, y: 0, z: 0 }),
    {
        Point3D { x: 0, y: 0, z: 0 }
    }

    /// The vector of length one along the first axis.
    pub fn unit_x() -> (p: Point3D)
        ensures
            p@ == (Vec3 { x: UNIT as int, y: 0, z: 0 }),
    {
        Point3D { x: UNIT, y: 0, z: 0 }
    }

    /// The vector of length one along the second axis.
    pub fn unit_y() -> (p: Point3D)
        ensures
            p@ == (Vec3 { x: 0, y: UNIT as int, z: 0 }),
    {
        Point3D { x: 0, y: UNIT, z: 0 }
    }

    /// The vector of length one along the third axis.
    pub fn unit_z() -> (p: Point3D)
        ensures
            p@ == (Vec3 { x: 0, y: 0, z: UNIT as int }),
    {
        Point3D { x: 0, y: 0, z: UNIT }
    }

    /// Whether no coordinate exceeds `limit` in size. No point is within a
    /// negative limit.
    pub fn within(&self, limit: i64) -> (b: bool)
        ensures
            b == self@.within(limit as int),
    {
        if limit < 0 {
            return false;
        }
        -limit <= self.x && self.x <= limit && -limit <= self.y && self.y <= limit && -limit
            <= self.z && self.z <= limit
    }

    /// Whether the point lies in the world.
    pub fn in_world(&self) -> (b: bool)
        ensures
            b == self@.in_world(),
    {
        self.within(WORLD_LIMIT)
    }

    /// The sum of `self` and `rhs`.
    pub fn add(&self, rhs: &Point3D) -> (sum: Point3D)
        requires
            self@.add(rhs@).fits(),
        ensures
            sum@ == self@.add(rhs@),
    {
        Point3D { x: self.x + rhs.x, y: self.y + rhs.y, z: self.z + rhs.z }
    }

    /// The difference of `self` and `rhs`.
    pub fn sub(&self, rhs: &Point3D) -> (diff: Point3D)
        requires
            self@.sub(rhs@).fits(),
        ensures
            diff@ == self@.sub(rhs@),
    {
        Point3D { x: self.x - rhs.x, y: self.y - rhs.y, z: self.z - rhs.z }
    }

    /// Adds `rhs` to `self`.
    pub fn add_assign(&mut self, rhs: Point3D)
        requires
            old(self)@.add(rhs@).fits(),
        ensures
            final(self)@ == old(self)@.add(rhs@),
    {
        self.x += rhs.x;
        self.y += rhs.y;
        self.z += rhs.z;
    }

    /// Takes `rhs` from `self`.
    pub fn sub_assign(&mut self, rhs: Point3D)
        requires
            old(self)@.sub(rhs@).fits(),
        ensures
            final(self)@ == old(self)@.sub(rhs@),
    {
        self.x -= rhs.x;
        self.y -= rhs.y;
        self.z -= rhs.z;
    }

    /// `self` taken `n` times, for a whole number `n`.
    pub fn times(&self, n: i32) -> (product: Point3D)
        requires
            self@.times(n as int).fits(),
        ensures
            product@ == self@.times(n as int),
    {
        proof {
            lemma_product_range(self.x as int, n as int);
            lemma_product_range(self.y as int, n as int);
            lemma_product_range(self.z as int, n as int);
        }
        let x: i128 = (self.x as i128) * (n as i128);
        let y: i128 = (self.y as i128) * (n as i128);
        let z: i128 = (self.z as i128) * (n as i128);
        Point3D { x: x as i64, y: y as i64, z: z as i64 }
    }

    /// `self` scaled by the raw factor `k`.
    pub fn scale(&self, k: i64) -> (scaled: Point3D)
        requires
            self@.scale(k as int).fits(),
        ensures
            scaled@ == self@.scale(k as int),
    {
        proof {
            lemma_product_range(self.x as int, k as int);
            lemma_product_range(self.y as int, k as int);
            lemma_product_range(self.z as int, k as int);
        }
        let x: i128 = div_round((self.x as i128) * (k as i128), UNIT as i128);
        let y: i128 = div_round((self.y as i128) * (k as i128), UNIT as i128);
        let z: i128 = div_round((self.z as i128) * (k as i128), UNIT as i128);
        Point3D { x: x as i64, y: y as i64, z: z as i64 }
    }

    /// The dot product of `self` and `other`.
    pub fn dot(&self, other: &Point3D) -> (d: i64)
        requires
            fits_i64(self@.dot(other@)),
        ensures
            d == self@.dot(other@),
    {
        proof {
            lemma_product_range(self.x as int, other.x as int);
            lemma_product_range(self.y as int, other.y as int);
            lemma_product_range(self.z as int, other.z as int);
            lemma_rounded_fits(self@.dot_exact(other@));
        }
        let px: i128 = (self.x as i128) * (other.x as i128);
        let py: i128 = (self.y as i128) * (other.y as i128);
        let pz: i128 = (self.z as i128) * (other.z as i128);
        let sum: i128 = px + py + pz;
        div_round(sum, UNIT as i128) as i64
    }

    /// The cross product of `self` and `rhs`, in this order.
    pub fn cross(&self, rhs: &Point3D) -> (c: Point3D)
        requires
            self@.cross(rhs@).fits(),
        ensures
            c@ == self@.cross(rhs@),
    {
        proof {
            lemma_product_range(self.y as int, rhs.z as int);
            lemma_product_range(self.z as int, rhs.y as int);
            lemma_product_range(self.z as int, rhs.x as int);
            lemma_product_range(self.x as int, rhs.z as int);
            lemma_product_range(self.x as int, rhs.y as int);
            lemma_product_range(self.y as int, rhs.x as int);
        }
        let x: i128 = (self.y as i128) * (rhs.z as i128) - (self.z as i128) * (rhs.y as i128);
        let y: i128 = (self.z as i128) * (rhs.x as i128) - (self.x as i128) * (rhs.z as i128);
        let z: i128 = (self.x as i128) * (rhs.y as i128) - (self.y as i128) * (rhs.x as i128);
        Point3D {
            x: div_round(x, UNIT as i128) as i64,
            y: div_round(y, UNIT as i128) as i64,
            z: div_round(z, UNIT as i128) as i64,
        }
    }

    /// `self` turned about `center` by the three angles of `rot`: about the
    /// first axis, then the second, then the third.
    pub fn rotate(&self, center: &Point3D, rot: &Rotation3) -> (turned: Point3D)
        requires
            self@.rotate_fits(center@, rot@),
        ensures
            turned@ == self@.rotate(center@, rot@),
    {
        self.rotate_x(center, rot.rot_x).rotate_y(center, rot.rot_y).rotate_z(center, rot.rot_z)
    }

    fn rotate_x(&self, center: &Point3D, angle_rad: i64) -> (turned: Point3D)
        requires
            self@.rotate_x(center@, angle_rad as int).fits(),
        ensures
            turned@ == self@.rotate_x(center@, angle_rad as int),
    {
        let (s, c) = sin_cos(angle_rad);

        let dy: i128 = (self.y as i128) - (center.y as i128);
        let dz: i128 = (self.z as i128) - (center.z as i128);

        let (rotated_y, rotated_z) = turn_pair(dy, dz, s, c);

        Point3D {
            x: self.x,
            y: (rotated_y + (center.y as i128)) as i64,
            z: (rotated_z + (center.z as i128)) as i64,
        }
    }

    fn rotate_y(&self, center: &Point3D, angle_rad: i64) -> (turned: Point3D)
        requires
            self@.rotate_y(center@, angle_rad as int).fits(),
        ensures
            turned@ == self@.rotate_y(center@, angle_rad as int),
    {
        let (s, c) = sin_cos(angle_rad);

        let dx: i128 = (self.x as i128) - (center.x as i128);
        let dz: i128 = (self.z as i128) - (center.z as i128);

        let (rotated_x, rotated_z) = turn_pair(dx, dz, -s, c);

        Point3D {
            x: (rotated_x + (center.x as i128)) as i64,
            y: self.y,
            z: (rotated_z + (center.z as i128)) as i64,
        }
    }

    fn rotate_z(&self, center: &Point3D, angle_rad: i64) -> (turned: Point3D)
        requires
            self@.rotate_z(center@, angle_rad as int).fits(),
        ensures
            turned@ == self@.rotate_z(center@, angle_rad as int),
    {
        let (s, c) = sin_cos(angle_rad);

        let dx: i128 = (self.x as i128) - (center.x as i128);
        let dy: i128 = (self.y as i128) - (center.y as i128);

        let (rotated_x, rotated_y) = turn_pair(dx, dy, s, c);

        Point3D {
            x: (rotated_x + (center.x as i128)) as i64,
            y: (rotated_y + (center.y as i128)) as i64,
            z: self.z,
        }
    }

    /// The Euclidean length of `self`, whatever its size.
    fn length(&self) -> (n: u64)
        ensures
            n == self@.norm(),
            is_floor_sqrt(self@.dot_exact(self@), n as int),
    {
        proof {
            lemma_product_range(self.x as int, self.x as int);
            lemma_product_range(self.y as int, self.y as int);
            lemma_product_range(self.z as int, self.z as int);
            assert(self.x * self.x >= 0) by (nonlinear_arith);
            assert(self.y * self.y >= 0) by (nonlinear_arith);
            assert(self.z * self.z >= 0) by (nonlinear_arith);
        }
        let sx: u128 = ((self.x as i128) * (self.x as i128)) as u128;
        let sy: u128 = ((self.y as i128) * (self.y as i128)) as u128;
        let sz: u128 = ((self.z as i128) * (self.z as i128)) as u128;
        isqrt(sx + sy + sz)
    }

    /// The Euclidean length of `self`, rounded down to a whole step.
    pub fn norm(&self) -> (n: i64)
        requires
            fits_i64(self@.norm()),
        ensures
            n == self@.norm(),
            is_floor_sqrt(self@.dot_exact(self@), n as int),
    {
        self.length() as i64
    }

    /// The vector of length one in the direction of `self`, or nothing where
    /// `self` has length zero.
    pub fn normalize(&self) -> (unit: Option<Point3D>)
        ensures
            self@.norm() == 0 <==> unit is None,
            unit matches Some(u) ==> u@ == self@.normalize(),
    {
        let n: u64 = self.length();
        if n == 0 {
            return None;
        }
        proof {
            lemma_normalize_fits(self@);
        }
        let d: i128 = n as i128;
        let x: i128 = div_round((self.x as i128) * (UNIT as i128), d);
        let y: i128 = div_round((self.y as i128) * (UNIT as i128), d);
        let z: i128 = div_round((self.z as i128) * (UNIT as i128), d);
        Some(Point3D { x: x as i64, y: y as i64, z: z as i64 })
    }

    /// The cosine of the angle between `self` and `rhs`, between minus one and
    /// one, or nothing where one of the two has length zero.
    pub fn angle(&self, rhs: &Point3D) -> (cosine: Option<i64>)
        requires
            self@.within(ANGLE_LIMIT as int),
            rhs@.within(ANGLE_LIMIT as int),
        ensures
            self@.norm() * rhs@.norm() == 0 <==> cosine is None,
            cosine matches Some(c) ==> c == self@.angle(rhs@) && -UNIT <= c <= UNIT,
    {
        let na: u64 = self.length();
        let nb: u64 = rhs.length();
        proof {
            lemma_norm_within(self@, ANGLE_LIMIT as int);
            lemma_norm_within(rhs@, ANGLE_LIMIT as int);
            lemma_dot_within(self@, rhs@, ANGLE_LIMIT as int);
            lemma_product_within(self.x as int, rhs.x as int, ANGLE_LIMIT as int, ANGLE_LIMIT as int);
            lemma_product_within(self.y as int, rhs.y as int, ANGLE_LIMIT as int, ANGLE_LIMIT as int);
            lemma_product_within(self.z as int, rhs.z as int, ANGLE_LIMIT as int, ANGLE_LIMIT as int);
            assert(ANGLE_LIMIT * ANGLE_LIMIT == 0x1000_0000_0000_0000_0000_0000_0000) by (nonlinear_arith);
            assert(0 <= na * nb <= 0x80_0000_0000_0000 * 0x80_0000_0000_0000) by (nonlinear_arith)
                requires
                    0 <= na <= 0x80_0000_0000_0000,
                    0 <= nb <= 0x80_0000_0000_0000,
            ;
            assert(na * nb == 0 <==> (na == 0 || nb == 0)) by (nonlinear_arith);
        }
        if na == 0 || nb == 0 {
            return None;
        }
        let px: i128 = (self.x as i128) * (rhs.x as i128);
        let py: i128 = (self.y as i128) * (rhs.y as i128);
        let pz: i128 = (self.z as i128) * (rhs.z as i128);
        let sum: i128 = px + py + pz;
        assert(-0x3000_0000_0000_0000_0000_0000_0000_0000 <= sum * UNIT
            <= 0x3000_0000_0000_0000_0000_0000_0000_0000) by (nonlinear_arith)
            requires
                -0x3000_0000_0000_0000_0000_0000_0000 <= sum <= 0x3000_0000_0000_0000_0000_0000_0000,
                UNIT == 0x1_0000,
        ;
        let ratio: i128 = div_round(sum * (UNIT as i128), (na as i128) * (nb as i128));
        let one: i128 = UNIT as i128;
        if ratio < -one {
            Some(-UNIT)
        } else if ratio > one {
            Some(UNIT)
        } else {
            Some(ratio as i64)
        }
    }
}

/// The length of a vector within `limit` is at most twice the limit.
pub proof fn lemma_norm_within(v: Vec3, limit: int)
    requires
        0 <= limit,
        v.within(limit),
    ensures
        0 <= v.norm() <= 2 * limit,
        is_floor_sqrt(v.dot_exact(v), v.norm()),
{
    lemma_dot_within(v, v, limit);
    let n = v.dot_exact(v);
    assert(v.x * v.x >= 0 && v.y * v.y >= 0 && v.z * v.z >= 0) by (nonlinear_arith);
    let r = crate::fixed::lemma_floor_sqrt_exists(n);
    assert(r <= 2 * limit) by (nonlinear_arith)
        requires
            0 <= r,
            r * r <= n,
            n <= 3 * (limit * limit),
            0 <= limit,
    ;
}

/// The exact dot product of two vectors within `limit` is at most three times
/// the square of the limit in size.
pub proof fn lemma_dot_within(a: Vec3, b: Vec3, limit: int)
    requires
        0 <= limit,
        a.within(limit),
        b.within(limit),
    ensures
        -3 * (limit * limit) <= a.dot_exact(b) <= 3 * (limit * limit),
{
    lemma_product_within(a.x, b.x, limit, limit);
    lemma_product_within(a.y, b.y, limit, limit);
    lemma_product_within(a.z, b.z, limit, limit);
}

/// The product of two bounded integers is bounded by the product of the bounds.
pub proof fn lemma_product_within(a: int, b: int, la: int, lb: int)
    requires
        -la <= a <= la,
        -lb <= b <= lb,
    ensures
        -(la * lb) <= a * b <= la * lb,
{
    assert(-(la * lb) <= a * b <= la * lb) by (nonlinear_arith)
        requires
            -la <= a <= la,
            -lb <= b <= lb,
    ;
}

/// No coordinate of a vector exceeds its length by a whole step or more, so
/// the coordinates of the normalized vector fit in 64 bits.
pub proof fn lemma_normalize_fits(v: Vec3)
    requires
        v.fits(),
        v.norm() != 0,
    ensures
        v.normalize().fits(),
        v.normalize().within(2 * UNIT),
{
    let n = v.dot_exact(v);
    assert(v.x * v.x >= 0 && v.y * v.y >= 0 && v.z * v.z >= 0) by (nonlinear_arith);
    let r = crate::fixed::lemma_floor_sqrt_exists(n);
    lemma_coordinate_below_norm(v.x, n, r);
    lemma_coordinate_below_norm(v.y, n, r);
    lemma_coordinate_below_norm(v.z, n, r);
}

/// A number whose square is at most `n` is at most the root of `n` in size,
/// and its quotient by that root is at most two.
proof fn lemma_coordinate_below_norm(c: int, n: int, r: int)
    requires
        c * c <= n,
        is_floor_sqrt(n, r),
        r != 0,
    ensures
        -2 * UNIT <= round_div(c * UNIT, r) <= 2 * UNIT,
{
    assert(magnitude(c) <= r) by (nonlinear_arith)
        requires
            c * c <= n,
            n < (r + 1) * (r + 1),
            0 <= r,
    ;
    lemma_round_div_size(c * UNIT, r);
    let q = magnitude(round_div(c * UNIT, r));
    assert(magnitude(c * UNIT) == magnitude(c) * UNIT) by (nonlinear_arith);
    assert(q <= 2 * UNIT) by (nonlinear_arith)
        requires
            2 * r * q <= 2 * (magnitude(c) * UNIT) + r,
            magnitude(c) <= r,
            r > 0,
            q >= 0,
    ;
}

/// Turns the pair `(u, v)` by the angle of sine `s` and cosine `c`.
fn turn_pair(u: i128, v: i128, s: i64, c: i64) -> (t: (i128, i128))
    requires
        -0x1_0000_0000_0000_0000 <= u <= 0x1_0000_0000_0000_0000,
        -0x1_0000_0000_0000_0000 <= v <= 0x1_0000_0000_0000_0000,
        -UNIT <= s <= UNIT,
        -UNIT <= c <= UNIT,
    ensures
        t.0 == turn(u as int, v as int, s as int, c as int).0,
        t.1 == turn(u as int, v as int, s as int, c as int).1,
        magnitude(t.0 as int) <= magnitude(u as int) + magnitude(v as int),
        magnitude(t.1 as int) <= magnitude(u as int) + magnitude(v as int),
{
    proof {
        lemma_turn_size(u as int, v as int, s as int, c as int);
        lemma_product_within(u as int, c as int, 0x1_0000_0000_0000_0000, UNIT as int);
        lemma_product_within(v as int, s as int, 0x1_0000_0000_0000_0000, UNIT as int);
        lemma_product_within(u as int, s as int, 0x1_0000_0000_0000_0000, UNIT as int);
        lemma_product_within(v as int, c as int, 0x1_0000_0000_0000_0000, UNIT as int);
        assert(0x1_0000_0000_0000_0000 * UNIT == 0x1_0000_0000_0000_0000_0000) by (nonlinear_arith);
    }
    let first: i128 = u * (c as i128) - v * (s as i128);
    let second: i128 = u * (s as i128) + v * (c as i128);
    (div_round(first, UNIT as i128), div_round(second, UNIT as i128))
}

/// A turned pair is no larger, in either coordinate, than the two coordinates
/// of the pair taken together.
pub proof fn lemma_turn_size(u: int, v: int, s: int, c: int)
    requires
        -UNIT <= s <= UNIT,
        -UNIT <= c <= UNIT,
    ensures
        magnitude(turn(u, v, s, c).0) <= magnitude(u) + magnitude(v),
        magnitude(turn(u, v, s, c).1) <= magnitude(u) + magnitude(v),
{
    let unit = UNIT as int;
    let m = magnitude(u) + magnitude(v);
    lemma_product_within(u, c, magnitude(u), unit);
    lemma_product_within(v, s, magnitude(v), unit);
    lemma_product_within(u, s, magnitude(u), unit);
    lemma_product_within(v, c, magnitude(v), unit);
    assert(magnitude(u) * unit + magnitude(v) * unit == m * unit) by (nonlinear_arith)
        requires
            m == magnitude(u) + magnitude(v),
    ;
    assert((-m) * unit == -(m * unit)) by (nonlinear_arith);
    lemma_round_div_exact(m, unit);
    lemma_round_div_exact(-m, unit);
    lemma_round_div_monotonic(u * c - v * s, m * unit, unit);
    lemma_round_div_monotonic((-m) * unit, u * c - v * s, unit);
    lemma_round_div_monotonic(u * s + v * c, m * unit, unit);
    lemma_round_div_monotonic((-m) * unit, u * s + v * c, unit);
}

/// A turn by the angle zero leaves the pair as it is.
pub proof fn lemma_turn_by_zero(u: int, v: int)
    ensures
        turn(u, v, 0, UNIT as int) == (u, v),
{
    let unit = UNIT as int;
    assert(u * unit - v * 0 == u * unit) by (nonlinear_arith);
    assert(u * 0 + v * unit == v * unit) by (nonlinear_arith);
    lemma_round_div_exact(u, unit);
    lemma_round_div_exact(v, unit);
}

/// How far a coordinate is from where it started after a turn and the
/// opposite turn. `d` is the difference, `mu` the size of the coordinate at the
/// start, `ud` that coordinate times what the sine and cosine lack on the unit
/// circle, and `r1`, `r2`, `r3` are the three rounding errors, each times a
/// factor of size one at most.
proof fn lemma_round_trip_error(d: int, mu: int, ud: int, r1: int, r2: int, r3: int)
    requires
        0x1_0000_0000 * d == -ud + r1 + r2 + r3,
        -(0x2_0000 * mu) <= ud <= 0x2_0000 * mu,
        -0x1_0000_0000 <= 2 * r1 <= 0x1_0000_0000,
        -0x1_0000_0000 <= 2 * r2 <= 0x1_0000_0000,
        -0x1_0000_0000 <= 2 * r3 <= 0x1_0000_0000,
    ensures
        2 * UNIT * magnitude(d) <= 4 * mu + 3 * UNIT,
{
    assert(2 * UNIT * magnitude(d) == 0x2_0000 * magnitude(d)) by (nonlinear_arith)
        requires
            UNIT == 0x1_0000,
    ;
}

/// What is left of `q * unit` after taking `a` and `b` away, times `f`, term
/// by term.
proof fn lemma_expand_error(q: int, unit: int, a: int, b: int, f: int)
    ensures
        (q * unit - (a + b)) * f == unit * (q * f) - a * f - b * f,
{
    assert((q * unit - (a + b)) * f == unit * (q * f) - a * f - b * f) by (nonlinear_arith);
}

/// A product of three factors, grouped either way.
proof fn lemma_regroup(a: int, b: int, c: int)
    ensures
        (a * b) * c == a * (b * c),
{
    assert((a * b) * c == a * (b * c)) by (nonlinear_arith);
}

/// The product of an opposite is the opposite of the product.
proof fn lemma_negated_product(a: int, b: int)
    ensures
        (-a) * b == -(a * b),
{
    assert((-a) * b == -(a * b)) by (nonlinear_arith);
}

/// The product of a rounding error of half a step at most and a factor of
/// size one at most is half a step at most.
proof fn lemma_error_product(e: int, f: int)
    requires
        2 * magnitude(e) <= UNIT,
        -UNIT <= f <= UNIT,
    ensures
        -0x1_0000_0000 <= 2 * (e * f) <= 0x1_0000_0000,
{
    assert(-0x1_0000_0000 <= 2 * (e * f) <= 0x1_0000_0000) by (nonlinear_arith)
        requires
            -0x1_0000 <= 2 * e <= 0x1_0000,
            -0x1_0000 <= f <= 0x1_0000,
    ;
}

/// A turn followed by the opposite turn brings each coordinate back near
/// where it was.
pub proof fn lemma_turn_back(u: int, v: int, s: int, c: int)
    requires
        on_unit_circle(s, c),
    ensures
        ({
            let t = turn(u, v, s, c);
            let b = turn(t.0, t.1, -s, c);
            &&& returns_near(b.0, u, 0)
            &&& returns_near(b.1, v, 0)
        }),
{
    let unit = UNIT as int;
    let t = turn(u, v, s, c);
    let y = t.0;
    let z = t.1;
    let b = turn(y, z, -s, c);
    // the products that occur, each under a name
    let uc = u * c;
    let us = u * s;
    let vc = v * c;
    let vs = v * s;
    let yc = y * c;
    let ys = y * s;
    let zc = z * c;
    let zs = z * s;
    assert(y * (-s) == -ys) by (nonlinear_arith)
        requires
            ys == y * s,
    ;
    assert(z * (-s) == -zs) by (nonlinear_arith)
        requires
            zs == z * s,
    ;
    lemma_round_div_nearest(uc - vs, unit);
    lemma_round_div_nearest(us + vc, unit);
    lemma_round_div_nearest(yc + zs, unit);
    lemma_round_div_nearest(-ys + zc, unit);
    // the four rounding errors
    let e1 = y * unit - (uc + (-vs));
    let e2 = z * unit - (us + vc);
    let e3 = b.0 * unit - (yc + zs);
    let e4 = b.1 * unit - (-ys + zc);
    let delta = unit * unit - (s * s + c * c);
    let ss = s * s;
    let cc = c * c;
    let sc = s * c;
    // errors times sine and cosine, spelled out
    lemma_expand_error(y, unit, uc, -vs, c);
    lemma_expand_error(y, unit, uc, -vs, s);
    lemma_expand_error(z, unit, us, vc, c);
    lemma_expand_error(z, unit, us, vc, s);
    lemma_regroup(u, c, c);
    lemma_regroup(u, c, s);
    lemma_regroup(u, s, c);
    lemma_regroup(u, s, s);
    lemma_regroup(v, c, c);
    lemma_regroup(v, c, s);
    lemma_regroup(v, s, c);
    lemma_regroup(v, s, s);
    lemma_negated_product(vs, c);
    lemma_negated_product(vs, s);
    assert(c * s == sc) by (nonlinear_arith)
        requires
            sc == s * c,
    ;
    assert(e1 * c == unit * yc - u * cc + v * sc);
    assert(e2 * s == unit * zs - u * ss - v * sc);
    assert(e1 * s == unit * ys - u * sc + v * ss);
    assert(e2 * c == unit * zc - u * sc - v * cc);
    assert(u * delta == 0x1_0000_0000 * u - u * ss - u * cc) by (nonlinear_arith)
        requires
            delta == 0x1_0000_0000 - (ss + cc),
    ;
    assert(v * delta == 0x1_0000_0000 * v - v * ss - v * cc) by (nonlinear_arith)
        requires
            delta == 0x1_0000_0000 - (ss + cc),
    ;
    assert(0 <= delta <= 2 * unit);
    lemma_product_within(u, delta, magnitude(u), 2 * unit);
    lemma_product_within(v, delta, magnitude(v), 2 * unit);
    assert(magnitude(u) * (2 * unit) == 0x2_0000 * magnitude(u)) by (nonlinear_arith)
        requires
            unit == 0x1_0000,
    ;
    assert(magnitude(v) * (2 * unit) == 0x2_0000 * magnitude(v)) by (nonlinear_arith)
        requires
            unit == 0x1_0000,
    ;
    lemma_error_product(e1, c);
    lemma_error_product(e2, s);
    lemma_error_product(e1, s);
    lemma_error_product(e2, c);
    // first coordinate
    let r3 = unit * e3;
    assert(0x1_0000_0000 * (b.0 - u) == -(u * delta) + e1 * c + e2 * s + r3);
    lemma_round_trip_error(b.0 - u, magnitude(u), u * delta, e1 * c, e2 * s, r3);
    // second coordinate
    let r4 = unit * e4;
    assert(0x1_0000_0000 * (b.1 - v) == -(v * delta) + (-(e1 * s)) + e2 * c + r4);
    lemma_round_trip_error(b.1 - v, magnitude(v), v * delta, -(e1 * s), e2 * c, r4);
}

/// The cross product changes its sign when its arguments change places.
pub proof fn lemma_cross_anticommutes(a: Vec3, b: Vec3)
    ensures
        a.cross(b) == b.cross(a).neg(),
{
    let unit = UNIT as int;
    assert(a.y * b.z - a.z * b.y == -(b.y * a.z - b.z * a.y)) by (nonlinear_arith);
    assert(a.z * b.x - a.x * b.z == -(b.z * a.x - b.x * a.z)) by (nonlinear_arith);
    assert(a.x * b.y - a.y * b.x == -(b.x * a.y - b.y * a.x)) by (nonlinear_arith);
    lemma_round_div_negate(b.y * a.z - b.z * a.y, unit);
    lemma_round_div_negate(b.z * a.x - b.x * a.z, unit);
    lemma_round_div_negate(b.x * a.y - b.y * a.x, unit);
}

/// A turn by the angle zero about any axis leaves a point where it is.
pub proof fn lemma_rotate_by_zero(p: Vec3, center: Vec3)
    ensures
        p.rotate_x(center, 0) == p,
        p.rotate_y(center, 0) == p,
        p.rotate_z(center, 0) == p,
{
    lemma_zero_angle();
    lemma_turn_by_zero(p.y - center.y, p.z - center.z);
    lemma_turn_by_zero(p.x - center.x, p.z - center.z);
    lemma_turn_by_zero(p.x - center.x, p.y - center.y);
}

/// A turn about one axis and the opposite turn about it bring a point back
/// near where it was.
pub proof fn lemma_rotate_axis_back(p: Vec3, center: Vec3, angle: int)
    ensures
        ({
            let q = p.rotate_x(center, angle).rotate_x(center, -angle);
            q.x == p.x && returns_near(q.y, p.y, center.y) && returns_near(q.z, p.z, center.z)
        }),
        ({
            let q = p.rotate_y(center, angle).rotate_y(center, -angle);
            q.y == p.y && returns_near(q.x, p.x, center.x) && returns_near(q.z, p.z, center.z)
        }),
        ({
            let q = p.rotate_z(center, angle).rotate_z(center, -angle);
            q.z == p.z && returns_near(q.x, p.x, center.x) && returns_near(q.y, p.y, center.y)
        }),
{
    let s = sine(angle);
    let c = cosine(angle);
    lemma_unit_circle(angle);
    lemma_opposite_angle(angle);
    assert((-s) * (-s) == s * s) by (nonlinear_arith);
    lemma_turn_back(p.y - center.y, p.z - center.z, s, c);
    lemma_turn_back(p.x - center.x, p.z - center.z, -s, c);
    lemma_turn_back(p.x - center.x, p.y - center.y, s, c);
}

/// Turning a point about a center and then turning it by the reverted
/// rotation about the same center brings it back near where it was, for a
/// rotation that turns about one axis at most.
pub proof fn lemma_rotate_revert(p: Vec3, center: Vec3, rot: Angles)
    requires
        rot.single_axis(),
    ensures
        ({
            let q = p.rotate(center, rot).rotate(center, rot.revert());
            &&& returns_near(q.x, p.x, center.x)
            &&& returns_near(q.y, p.y, center.y)
            &&& returns_near(q.z, p.z, center.z)
        }),
{
    if rot.y == 0 && rot.z == 0 {
        let first = p.rotate_x(center, rot.x);
        lemma_rotate_by_zero(first, center);
        lemma_rotate_axis_back(p, center, rot.x);
        let back = first.rotate_x(center, -rot.x);
        lemma_rotate_by_zero(back, center);
    } else if rot.x == 0 && rot.z == 0 {
        lemma_rotate_by_zero(p, center);
        let first = p.rotate_y(center, rot.y);
        lemma_rotate_by_zero(first, center);
        lemma_rotate_axis_back(p, center, rot.y);
        let back = first.rotate_y(center, -rot.y);
        lemma_rotate_by_zero(back, center);
    } else {
        lemma_rotate_by_zero(p, center);
        lemma_rotate_axis_back(p, center, rot.z);
        let first = p.rotate_z(center, rot.z);
        lemma_rotate_by_zero(first, center);
    }
}

/// A point and a center within `limit` give, turned, a point within 29 times
/// the limit, and within five and thirteen times after the first and the
/// second turn.
pub proof fn lemma_rotate_size(p: Vec3, center: Vec3, rot: Angles, limit: int)
    requires
        0 <= limit,
        p.within(limit),
        center.within(limit),
    ensures
        p.rotate_x(center, rot.x).within(5 * limit),
        p.rotate_x(center, rot.x).rotate_y(center, rot.y).within(13 * limit),
        p.rotate(center, rot).within(29 * limit),
{
    lemma_unit_circle(rot.x);
    lemma_unit_circle(rot.y);
    lemma_unit_circle(rot.z);
    let first = p.rotate_x(center, rot.x);
    lemma_turn_size(p.y - center.y, p.z - center.z, sine(rot.x), cosine(rot.x));
    let second = first.rotate_y(center, rot.y);
    lemma_turn_size(first.x - center.x, first.z - center.z, -sine(rot.y), cosine(rot.y));
    lemma_turn_size(second.x - center.x, second.y - center.y, sine(rot.z), cosine(rot.z));
}

/// A pixel position on the screen.
#[derive(Debug, Clone, Copy, PartialEq, Eq, Structural)]
pub struct Point2D {
    pub x: i32,
    pub y: i32,
}

impl Point2D {
    /// The pixel at column `x` and row `y`.
    pub fn new(x: i32, y: i32) -> (p: Point2D)
        ensures
            p.x == x,
            p.y == y,
    {
        Point2D { x, y }
    }
}

} // verus!
