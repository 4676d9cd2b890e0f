//! Cubes with edges along the world axes.
//!
//! The eight corners are numbered as follows; the second axis points up, the
//! third away from the viewer.
//!
//! ```text
//!   (2)       (3)
//!        *---------*
//!       /|        /|
//! (0)  / |  (1)  / |
//!     *---------*  |
//!     |  *------|--*         ^  ^
//!     | / (6)   | / (7)    Y | / Z
//!     |/        |/           |/
//!     *---------*            *----->
//! (4)        (5)                 X
//! ```
//!
//! Corner 0 is the origin of the cube. Corners 0 to 3 form the top; corners 4
//! to 7 lie one edge below them.

use vstd::prelude::*;
use crate::color::Color;
use crate::fixed::UNIT;
use crate::fixed::fits_i64;
use crate::fixed::round_div;
use crate::fixed::lemma_round_div_exact;
use crate::fixed::lemma_round_div_negate;
use crate::point::Point3D;
use crate::point::Vec3;
use crate::square::Square;

verus! {

/// Corner `i` of the cube with origin `corner` and edge length `edge`.
pub open spec fn cube_corner(corner: Vec3, edge: int, i: int) -> Vec3
    recommends
        0 <= i < 8,
{
    Vec3 {
        x: corner.x + (if i % 4 >= 2 {
            edge
        } else {
            0
        }),
        y: corner.y - (if i >= 4 {
            edge
        } else {
            0
        }),
        z: corner.z + (if i % 2 == 1 {
            edge
        } else {
            0
        }),
    }
}

/// Whether all eight corners fit in 64 bits.
pub open spec fn cube_fits(corner: Vec3, edge: int) -> bool {
    &&& corner.fits()
    &&& fits_i64(edge)
    &&& fits_i64(corner.x + edge)
    &&& fits_i64(corner.y - edge)
    &&& fits_i64(corner.z + edge)
}

/// The number of the corner at position `j` of face `f`. The faces are, in
/// order, the top, the bottom, the front, the left, the right and the back;
/// each lists its corners such that its normal points out of the cube.
pub open spec fn face_corner(f: int, j: int) -> int
    recommends
        0 <= f < 6,
        0 <= j < 4,
{
    if f == 0 {
        if j == 0 { 0 } else if j == 1 { 1 } else if j == 2 { 3 } else { 2 }
    } else if f == 1 {
        if j == 0 { 4 } else if j == 1 { 6 } else if j == 2 { 7 } else { 5 }
    } else if f == 2 {
        if j == 0 { 0 } else if j == 1 { 4 } else if j == 2 { 5 } else { 1 }
    } else if f == 3 {
        if j == 0 { 0 } else if j == 1 { 2 } else if j == 2 { 6 } else { 4 }
    } else if f == 4 {
        if j == 0 { 1 } else if j == 1 { 5 } else if j == 2 { 7 } else { 3 }
    } else {
        if j == 0 { 2 } else if j == 1 { 3 } else if j == 2 { 7 } else { 6 }
    }
}

/// The corner at position `j` of face `f` of the cube with origin `corner` and
/// edge length `edge`.
pub open spec fn face_vertex(corner: Vec3, edge: int, f: int, j: int) -> Vec3 {
    cube_corner(corner, edge, face_corner(f, j))
}

/// The normal of face `f`: the cross product of its edges from the first
/// corner to the second and from the first to the fourth.
pub open spec fn face_normal(corner: Vec3, edge: int, f: int) -> Vec3 {
    face_vertex(corner, edge, f, 1).sub(face_vertex(corner, edge, f, 0)).cross(
        face_vertex(corner, edge, f, 3).sub(face_vertex(corner, edge, f, 0)),
    )
}

/// The sum of the eight corners: eight times the middle of the cube.
pub open spec fn corner_sum(corner: Vec3, edge: int) -> Vec3 {
    Vec3 {
        x: 8 * corner.x + 4 * edge,
        y: 8 * corner.y - 4 * edge,
        z: 8 * corner.z + 4 * edge,
    }
}

/// The sum of the four corners of face `f`: four times the middle of the face.
pub open spec fn face_sum(corner: Vec3, edge: int, f: int) -> Vec3 {
    face_vertex(corner, edge, f, 0).add(face_vertex(corner, edge, f, 1)).add(
        face_vertex(corner, edge, f, 2),
    ).add(face_vertex(corner, edge, f, 3))
}

/// Eight times the vector from the middle of the cube to the middle of face
/// `f`.
pub open spec fn face_outward(corner: Vec3, edge: int, f: int) -> Vec3 {
    face_sum(corner, edge, f).times(2).sub(corner_sum(corner, edge))
}

/// A cube with edges along the world axes, by its eight corners and its color.
pub struct Cube {
    vertices: [Point3D; 8],
    color: Color,
}

impl Cube {
    #[verifier::type_invariant]
    spec fn valid(self) -> bool {
        forall|i: int| 0 <= i < 8 ==> #[trigger] self.vertices[i]@ == cube_corner(self.origin(), self.edge(), i)
    }

    /// The corner from which the cube was built.
    pub closed spec fn origin(self) -> Vec3 {
        self.vertices[0]@
    }

    /// The length of an edge, as a raw scalar.
    pub closed spec fn edge(self) -> int {
        self.vertices[1]@.z - self.vertices[0]@.z
    }

    /// The color of the six faces.
    pub closed spec fn color(self) -> Color {
        self.color
    }

    /// The cube that has `corner` as corner 0 and edges of length `edge_size`
    /// along the three axes: from `corner` towards larger first and third
    /// coordinates and towards smaller second coordinates.
    pub fn new(corner: &Point3D, color: Color, edge_size: i64) -> (cube: Cube)
        requires
            cube_fits(corner@, edge_size as int),
        ensures
            cube.origin() == corner@,
            cube.edge() == edge_size,
            cube.color() == color,
    {
        proof {
            lemma_round_div_exact(edge_size as int, UNIT as int);
            lemma_round_div_exact(0, UNIT as int);
            assert(UNIT * edge_size == edge_size * UNIT) by (nonlinear_arith);
            assert(0 * edge_size == 0 * UNIT) by (nonlinear_arith);
        }
        let x = Point3D::unit_x().scale(edge_size);
        let y = Point3D::unit_y().scale(edge_size);
        let z = Point3D::unit_z().scale(edge_size);

        let v0 = *corner;
        let v1 = corner.add(&z);
        let v2 = corner.add(&x);
        let v3 = corner.add(&x).add(&z);
        let v4 = v0.sub(&y);
        let v5 = v1.sub(&y);
        let v6 = v2.sub(&y);
        let v7 = v3.sub(&y);

        Cube { vertices: [v0, v1, v2, v3, v4, v5, v6, v7], color }
    }

    /// The six faces of the cube: the top, the bottom, the front, the left,
    /// the right and the back, each with the color of the cube and with its
    /// corners in the order that makes its normal point out of the cube.
    pub fn faces(&self) -> (faces: Vec<Square>)
        ensures
            faces@.len() == 6,
            forall|f: int, j: int|
                0 <= f < 6 && 0 <= j < 4 ==> #[trigger] faces@[f].corner(j) == face_vertex(
                    self.origin(),
                    self.edge(),
                    f,
                    j,
                ),
            forall|f: int| 0 <= f < 6 ==> #[trigger] faces@[f].color == self.color(),
            forall|f: int|
                0 <= f < 6 ==> #[trigger] faces@[f].spec_normal() == face_normal(
                    self.origin(),
                    self.edge(),
                    f,
                ),
    {
        proof {
            use_type_invariant(self);
        }
        let mut faces: Vec<Square> = Vec::new();

        let top = [self.vertices[0], self.vertices[1], self.vertices[3], self.vertices[2]];
        let bottom = [self.vertices[4], self.vertices[6], self.vertices[7], self.vertices[5]];
        let front = [self.vertices[0], self.vertices[4], self.vertices[5], self.vertices[1]];
        let left = [self.vertices[0], self.vertices[2], self.vertices[6], self.vertices[4]];
        let right = [self.vertices[1], self.vertices[5], self.vertices[7], self.vertices[3]];
        let back = [self.vertices[2], self.vertices[3], self.vertices[7], self.vertices[6]];

        faces.push(Square::new(top.as_slice(), &self.color));
        faces.push(Square::new(bottom.as_slice(), &self.color));
        faces.push(Square::new(front.as_slice(), &self.color));
        faces.push(Square::new(left.as_slice(), &self.color));
        faces.push(Square::new(right.as_slice(), &self.color));
        faces.push(Square::new(back.as_slice(), &self.color));

        faces
    }
}

/// Each face of a cube with a positive edge has a normal that points out of
/// the cube: its dot product with the vector from the middle of the cube to
/// the middle of the face is positive. The edge must be long enough for the
/// area of a face not to round to zero.
pub proof fn lemma_cube_normals_outward(corner: Vec3, edge: int, f: int)
    requires
        edge > 0,
        2 * (edge * edge) >= UNIT,
        0 <= f < 6,
    ensures
        face_normal(corner, edge, f).dot_exact(face_outward(corner, edge, f)) > 0,
{
    let unit = UNIT as int;
    let area = round_div(edge * edge, unit);
    let e2 = edge * edge;
    // half a step of area rounds up to one step, and more area to no less
    assert(area > 0) by {
        assert(round_div(32768, unit) == 1);
        crate::fixed::lemma_round_div_monotonic(32768, e2, unit);
    }
    lemma_round_div_negate(e2, unit);
    lemma_round_div_exact(0, unit);
    assert(0 * unit == 0);
    // the products of the edge vectors, which have one coordinate each
    assert(edge * 0 == 0 && 0 * edge == 0 && 0 * 0 == 0 && (-edge) * 0 == 0 && 0 * (-edge) == 0)
        by (nonlinear_arith);
    assert((-edge) * edge == -e2 && edge * (-edge) == -e2) by (nonlinear_arith)
        requires
            e2 == edge * edge,
    ;
    let n = face_normal(corner, edge, f);
    let o = face_outward(corner, edge, f);
    if f == 0 {
        assert(n == Vec3 { x: 0, y: area, z: 0 });
        assert(o == Vec3 { x: 0, y: 4 * edge, z: 0 });
    } else if f == 1 {
        assert(n == Vec3 { x: 0, y: -area, z: 0 });
        assert(o == Vec3 { x: 0, y: -4 * edge, z: 0 });
    } else if f == 2 {
        assert(n == Vec3 { x: -area, y: 0, z: 0 });
        assert(o == Vec3 { x: -4 * edge, y: 0, z: 0 });
    } else if f == 3 {
        assert(n == Vec3 { x: 0, y: 0, z: -area });
        assert(o == Vec3 { x: 0, y: 0, z: -4 * edge });
    } else if f == 4 {
        assert(n == Vec3 { x: 0, y: 0, z: area });
        assert(o == Vec3 { x: 0, y: 0, z: 4 * edge });
    } else {
        assert(n == Vec3 { x: area, y: 0, z: 0 });
        assert(o == Vec3 { x: 4 * edge, y: 0, z: 0 });
    }
    assert(area * (4 * edge) > 0 && (-area) * (-4 * edge) > 0) by (nonlinear_arith)
        requires
            area > 0,
            edge > 0,
    ;
    assert(0 * 0 == 0 && area * 0 == 0 && 0 * (4 * edge) == 0 && (-area) * 0 == 0 && 0 * (-4
        * edge) == 0) by (nonlinear_arith);
}

} // verus!
