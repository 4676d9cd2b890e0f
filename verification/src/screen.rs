//! The screen and the projection of the world onto it.
//!
//! The camera is a pinhole at the viewpoint that looks along the third axis.
//! The focal distance follows from the width of the screen and the horizontal
//! field of view; a point is projected by similar triangles and rounded to a
//! whole pixel.

use vstd::prelude::*;
use crate::fixed::UNIT;
use crate::fixed::fits_i32;
use crate::fixed::round_div;
use crate::fixed::div_round;
use crate::fixed::lemma_round_div_size;
use crate::point::Point2D;
use crate::point::Point3D;
use crate::point::Vec3;
use crate::trig::sine;
use crate::trig::cosine;
use crate::trig::sin_cos;
use crate::trig::lemma_unit_circle;

verus! {

/// The width of the window in pixels.
pub const WINDOW_WIDTH: u32 = 1500;

/// The height of the window in pixels.
pub const WINDOW_HEIGHT: u32 = 1000;

/// The horizontal field of view, 75 degrees, in raw radians.
pub const FOV: i64 = 85786;

/// The focal distance, as a raw scalar, of a screen `width` pixels wide seen
/// under the horizontal field of view `fov`: half the width over the tangent of
/// half the field of view. It is meant for a field of view whose half has a
/// sine that is not zero.
pub open spec fn focal_distance(width: int, fov: int) -> int {
    let half = round_div(fov, 2);
    round_div(width * UNIT * cosine(half), 2 * sine(half))
}

/// The pixel coordinate of a point that lies `offset` beside the axis of view
/// and `depth` in front of the viewpoint, on a screen whose middle is at
/// `middle`.
pub open spec fn pixel(middle: int, focal: int, offset: int, depth: int) -> int
    recommends
        depth != 0,
{
    middle + round_div(focal * offset, depth * UNIT)
}

/// A screen: its width and height in pixels and its focal distance as a raw
/// scalar.
#[derive(Debug, Clone, Copy, PartialEq, Eq, Structural)]
pub struct Screen {
    pub width: u32,
    pub height: u32,
    pub focal: i64,
}

impl Screen {
    /// The pixel of the point `p` seen from `v`: nothing where the point is at
    /// the depth of the viewpoint, or where the pixel is out of the range of
    /// 32 bits.
    pub open spec fn spec_project(self, p: Vec3, v: Vec3) -> Option<Point2D> {
        let depth = p.z - v.z;
        let x = pixel(self.width as int / 2, self.focal as int, p.x - v.x, depth);
        let y = pixel(self.height as int / 2, self.focal as int, p.y - v.y, depth);
        if depth != 0 && fits_i32(x) && fits_i32(y) {
            Some(Point2D { x: x as i32, y: y as i32 })
        } else {
            None
        }
    }

    /// The screen of the given size whose focal distance follows from the
    /// horizontal field of view `fov`, an angle in raw radians; nothing where
    /// the sine of half of `fov` is zero.
    pub fn new(width: u32, height: u32, fov: i64) -> (screen: Option<Screen>)
        ensures
            sine(round_div(fov as int, 2)) == 0 <==> screen is None,
            screen matches Some(s) ==> s.width == width && s.height == height && s.focal
                == focal_distance(width as int, fov as int),
    {
        proof {
            lemma_round_div_size(fov as int, 2);
        }
        let half: i64 = div_round(fov as i128, 2) as i64;
        let (s, c) = sin_cos(half);
        if s == 0 {
            return None;
        }
        proof {
            lemma_unit_circle(half as int);
            assert(-0x1_0000_0000_0000 <= width * UNIT <= 0x1_0000_0000_0000) by (nonlinear_arith)
                requires
                    0 <= width <= 0xffff_ffff,
                    UNIT == 0x1_0000,
            ;
            assert(-0xffff_ffff_0000_0000 <= width * UNIT * c <= 0xffff_ffff_0000_0000)
                by (nonlinear_arith)
                requires
                    0 <= width <= 0xffff_ffff,
                    UNIT == 0x1_0000,
                    -0x1_0000 <= c <= 0x1_0000,
            ;
            lemma_focal_fits(width * UNIT * c, s as int);
        }
        let numerator: i128 = (width as i128) * (UNIT as i128) * (c as i128);
        let focal: i128 = div_round(numerator, 2 * (s as i128));
        Some(Screen { width, height, focal: focal as i64 })
    }

    /// Projects `point`, seen from `viewpoint`, onto the screen.
    pub fn project(&self, point: &Point3D, viewpoint: &Point3D) -> (pixel: Option<Point2D>)
        ensures
            pixel == self.spec_project(point@, viewpoint@),
    {
        let dx: i128 = (point.x as i128) - (viewpoint.x as i128);
        let dy: i128 = (point.y as i128) - (viewpoint.y as i128);
        let dz: i128 = (point.z as i128) - (viewpoint.z as i128);
        if dz == 0 {
            return None;
        }
        proof {
            lemma_wide_product(self.focal as int, dx as int);
            lemma_wide_product(self.focal as int, dy as int);
            assert(-0x1_0000_0000_0000_0000_0000 <= dz * UNIT <= 0x1_0000_0000_0000_0000_0000)
                by (nonlinear_arith)
                requires
                    -0x1_0000_0000_0000_0000 <= dz <= 0x1_0000_0000_0000_0000,
                    UNIT == 0x1_0000,
            ;
            assert(dz * UNIT != 0) by (nonlinear_arith)
                requires
                    dz != 0,
                    UNIT == 0x1_0000,
            ;
            lemma_quotient_size(self.focal * dx, dz * UNIT);
            lemma_quotient_size(self.focal * dy, dz * UNIT);
        }
        let depth: i128 = dz * (UNIT as i128);
        let focal: i128 = self.focal as i128;
        let x: i128 = ((self.width / 2) as i128) + div_round(focal * dx, depth);
        let y: i128 = ((self.height / 2) as i128) + div_round(focal * dy, depth);
        if x < (i32::MIN as i128) || x > (i32::MAX as i128) || y < (i32::MIN as i128) || y > (
        i32::MAX as i128) {
            return None;
        }
        Some(Point2D { x: x as i32, y: y as i32 })
    }
}

/// A rounded quotient is no larger than its numerator.
proof fn lemma_quotient_size(n: int, d: int)
    requires
        d != 0,
    ensures
        -crate::fixed::magnitude(n) <= round_div(n, d) <= crate::fixed::magnitude(n),
{
    lemma_round_div_size(n, crate::fixed::magnitude(d));
}

/// The product of a 64-bit integer and a difference of two 64-bit integers
/// stays inside 128 bits.
proof fn lemma_wide_product(a: int, d: int)
    requires
        -0x8000_0000_0000_0000 <= a <= 0x7fff_ffff_ffff_ffff,
        -0xffff_ffff_ffff_ffff <= d <= 0xffff_ffff_ffff_ffff,
    ensures
        -0x7fff_ffff_ffff_ffff_8000_0000_0000_0000 <= a * d
            <= 0x7fff_ffff_ffff_ffff_8000_0000_0000_0000,
{
    assert(-0x7fff_ffff_ffff_ffff_8000_0000_0000_0000 <= a * d
        <= 0x7fff_ffff_ffff_ffff_8000_0000_0000_0000) by (nonlinear_arith)
        requires
            -0x8000_0000_0000_0000 <= a <= 0x7fff_ffff_ffff_ffff,
            -0xffff_ffff_ffff_ffff <= d <= 0xffff_ffff_ffff_ffff,
    ;
}

/// A numerator of 64 bits at most, over twice a sine that is not zero, gives
/// a quotient that fits in 64 bits.
proof fn lemma_focal_fits(n: int, s: int)
    requires
        -0xffff_ffff_0000_0000 <= n <= 0xffff_ffff_0000_0000,
        s != 0,
    ensures
        crate::fixed::fits_i64(round_div(n, 2 * s)),
{
    let d = crate::fixed::magnitude(2 * s);
    let q = crate::fixed::magnitude(round_div(n, d));
    let m = crate::fixed::magnitude(n);
    lemma_round_div_size(n, d);
    assert(q <= 0x7fff_ffff_8000_0001) by (nonlinear_arith)
        requires
            2 * d * q <= 2 * m + d,
            d >= 2,
            0 <= q,
            0 <= m <= 0xffff_ffff_0000_0000,
    ;
}

} // verus!
