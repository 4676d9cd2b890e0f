//! Quads: the faces that are drawn.
//!
//! A `Square` has four corners in order, such that each corner and the next,
//! and the last and the first, bound the face. The order fixes the side to
//! which the normal points: it is the cross product of the edge from the first
//! corner to the second and the edge from the first corner to the fourth.

use vstd::prelude::*;
use std::cmp::Ordering;
use crate::color::Color;
use crate::fixed::fits_i64;
use crate::fixed::is_floor_sqrt;
use crate::fixed::round_div;
use crate::fixed::div_round;
use crate::fixed::lemma_round_div_size;
use crate::point::Point3D;
use crate::point::Vec3;
use crate::point::lemma_norm_within;
use crate::point::lemma_product_within;
use crate::tuple::Tuple;

verus! {

/// A face with four corners and a fill color.
#[derive(Debug, Clone, Copy)]
pub struct Square {
    pub vertices: [Point3D; 4],
    pub color: Color,
}

/// A walk over the four edges of a `Square`, from the edge that leaves the
/// first corner to the edge that comes back to it.
pub struct SquareIter<'a> {
    square: &'a Square,
    idx: usize,
}

impl Square {
    /// The corner at position `i`, as a vector.
    pub open spec fn corner(self, i: int) -> Vec3
        recommends
            0 <= i < 4,
    {
        self.vertices[i]@
    }

    /// Whether all four corners lie in the world.
    pub open spec fn spec_in_world(self) -> bool {
        &&& self.corner(0).in_world()
        &&& self.corner(1).in_world()
        &&& self.corner(2).in_world()
        &&& self.corner(3).in_world()
    }

    /// The normal of the face: the cross product of the edge from the first to
    /// the second corner and the edge from the first to the fourth. Its length
    /// is not one.
    pub open spec fn spec_normal(self) -> Vec3 {
        self.corner(1).sub(self.corner(0)).cross(self.corner(3).sub(self.corner(0)))
    }

    /// Whether the two edges at the first corner and the normal fit in 64 bits.
    pub open spec fn normal_fits(self) -> bool {
        &&& self.corner(1).sub(self.corner(0)).fits()
        &&& self.corner(3).sub(self.corner(0)).fits()
        &&& self.spec_normal().fits()
    }

    /// The point halfway between the first and the third corner, each
    /// coordinate rounded. It stands for the middle of the face.
    pub open spec fn midpoint(self) -> Vec3 {
        Vec3 {
            x: round_div(self.corner(0).x + self.corner(2).x, 2),
            y: round_div(self.corner(0).y + self.corner(2).y, 2),
            z: round_div(self.corner(0).z + self.corner(2).z, 2),
        }
    }

    /// The distance from the middle of the face to `p`.
    pub open spec fn distance(self, p: Vec3) -> int {
        self.midpoint().sub(p).norm()
    }

    /// Whether the vector from `p` to the middle of the face and its length
    /// fit in 64 bits.
    pub open spec fn distance_fits(self, p: Vec3) -> bool {
        self.midpoint().sub(p).fits() && fits_i64(self.distance(p))
    }

    /// The face with the four corners of `vertices`, in their order, and the
    /// color `color`.
    pub fn new(vertices: &[Point3D], color: &Color) -> (square: Square)
        requires
            vertices@.len() == 4,
        ensures
            square.vertices@ == vertices@,
            square.color == *color,
    {
        let v: [Point3D; 4] = [vertices[0], vertices[1], vertices[2], vertices[3]];
        assert(v@ =~= vertices@);
        Square { vertices: v, color: *color }
    }

    /// Whether all four corners lie in the world.
    pub fn in_world(&self) -> (b: bool)
        ensures
            b == self.spec_in_world(),
    {
        self.vertices[0].in_world() && self.vertices[1].in_world() && self.vertices[2].in_world()
            && self.vertices[3].in_world()
    }

    /// A walk over the four edges, starting at the first.
    pub fn iter_pairs(&self) -> (iter: SquareIter<'_>)
        ensures
            iter.square() == *self,
            iter.position() == 0,
    {
        SquareIter { square: self, idx: 0 }
    }

    /// The normal of the face, a vector from the origin.
    pub fn normal(&self) -> (n: Point3D)
        requires
            self.normal_fits(),
        ensures
            n@ == self.spec_normal(),
    {
        let first = self.vertices[1].sub(&self.vertices[0]);
        let second = self.vertices[3].sub(&self.vertices[0]);

        first.cross(&second)
    }

    /// The point halfway between the first and the third corner.
    fn center(&self) -> (c: Point3D)
        ensures
            c@ == self.midpoint(),
    {
        let v1 = &self.vertices[0];
        let v2 = &self.vertices[2];
        proof {
            lemma_round_div_size(v1.x + v2.x, 2);
            lemma_round_div_size(v1.y + v2.y, 2);
            lemma_round_div_size(v1.z + v2.z, 2);
        }
        let x: i128 = div_round((v1.x as i128) + (v2.x as i128), 2);
        let y: i128 = div_round((v1.y as i128) + (v2.y as i128), 2);
        let z: i128 = div_round((v1.z as i128) + (v2.z as i128), 2);
        Point3D::new(x as i64, y as i64, z as i64)
    }

    /// The distance from the middle of the face to `point`.
    pub fn distance_from_point(&self, point: &Point3D) -> (d: i64)
        requires
            self.distance_fits(point@),
        ensures
            d == self.distance(point@),
            is_floor_sqrt(
                self.midpoint().sub(point@).dot_exact(self.midpoint().sub(point@)),
                d as int,
            ),
    {
        let center = self.center();
        let delta = center.sub(point);
        delta.norm()
    }

    /// Orders two faces by their distance from `p`: `Greater` where `s1` is
    /// farther than `s2`, `Less` where it is nearer, `Equal` where the two are
    /// equally far.
    pub fn closer_to_point(s1: &Square, s2: &Square, p: &Point3D) -> (o: Ordering)
        requires
            s1.distance_fits(p@),
            s2.distance_fits(p@),
        ensures
            o == (if s1.distance(p@) > s2.distance(p@) {
                Ordering::Greater
            } else if s1.distance(p@) < s2.distance(p@) {
                Ordering::Less
            } else {
                Ordering::Equal
            }),
    {
        let d1 = s1.distance_from_point(p);
        let d2 = s2.distance_from_point(p);

        if d1 > d2 {
            Ordering::Greater
        } else if d1 < d2 {
            Ordering::Less
        } else {
            Ordering::Equal
        }
    }
}

impl<'a> SquareIter<'a> {
    #[verifier::type_invariant]
    spec fn valid(self) -> bool {
        self.idx <= 4
    }

    /// The face whose edges are walked.
    pub closed spec fn square(self) -> Square {
        *self.square
    }

    /// How many edges were handed out, from zero to four.
    pub closed spec fn position(self) -> int {
        self.idx as int
    }

    /// The next edge as the pair of its two corners, or nothing after the
    /// fourth edge. The edge at position `i` leads from corner `i` to the corner
    /// after it, the fourth edge back to the first corner.
    pub fn next(&mut self) -> (item: Option<Tuple<&'a Point3D, &'a Point3D>>)
        ensures
            final(self).square() == old(self).square(),
            0 <= old(self).position() <= 4,
            old(self).position() == 4 ==> item is None && final(self).position() == 4,
            old(self).position() < 4 ==> final(self).position() == old(self).position() + 1,
            old(self).position() < 4 ==> (item matches Some(pair) && *pair.first == old(
                self,
            ).square().vertices[old(self).position()] && *pair.second == old(
                self,
            ).square().vertices[(old(self).position() + 1) % 4]),
    {
        proof {
            use_type_invariant(&*self);
        }
        if self.idx == 4 {
            return None;
        }
        let square: &'a Square = self.square;
        let l = &square.vertices[self.idx];
        let r = &square.vertices[(self.idx + 1) % 4];
        self.idx += 1;
        Some(Tuple::new(l, r))
    }
}

/// A face in the world has edges and a normal that fit in 64 bits, and the
/// normal is small enough for the angle to a direction to be taken.
pub proof fn lemma_normal_in_world(square: Square)
    requires
        square.spec_in_world(),
    ensures
        square.normal_fits(),
        square.spec_normal().within(0x2_0000_0000_0001),
{
    let a = square.corner(1).sub(square.corner(0));
    let b = square.corner(3).sub(square.corner(0));
    let l = 0x1_0000_0000int;
    assert(l * l == 0x1_0000_0000_0000_0000) by (nonlinear_arith)
        requires
            l == 0x1_0000_0000,
    ;
    lemma_product_within(a.y, b.z, l, l);
    lemma_product_within(a.z, b.y, l, l);
    lemma_product_within(a.z, b.x, l, l);
    lemma_product_within(a.x, b.z, l, l);
    lemma_product_within(a.x, b.y, l, l);
    lemma_product_within(a.y, b.x, l, l);
    crate::point::lemma_rounded_size(a.y * b.z - a.z * b.y, 0x2_0000_0000_0000_0000);
    crate::point::lemma_rounded_size(a.z * b.x - a.x * b.z, 0x2_0000_0000_0000_0000);
    crate::point::lemma_rounded_size(a.x * b.y - a.y * b.x, 0x2_0000_0000_0000_0000);
}

/// The distance from a point of the world to a face in the world fits in 64
/// bits.
pub proof fn lemma_distance_in_world(square: Square, p: Vec3)
    requires
        square.spec_in_world(),
        p.in_world(),
    ensures
        square.distance_fits(p),
        0 <= square.distance(p) <= 0x4_0000_0000,
{
    let c0 = square.corner(0);
    let c2 = square.corner(2);
    lemma_round_div_size(c0.x + c2.x, 2);
    lemma_round_div_size(c0.y + c2.y, 2);
    lemma_round_div_size(c0.z + c2.z, 2);
    let delta = square.midpoint().sub(p);
    assert(delta.within(0x2_0000_0000));
    lemma_norm_within(delta, 0x2_0000_0000);
}

} // verus!
