//! From faces to what is drawn.
//!
//! A frame is resolved in four steps. The faces that lie in the world are put
//! in drawing order: the farthest from the viewpoint first, and of two that are
//! equally far the one that comes first in the list. A face whose normal has a
//! positive dot product with the direction of view shows its back and is left
//! out. A face that is left is shaded by the angle between its normal and the
//! direction of view; its four corners are turned about the viewpoint by the
//! orientation of the view and projected onto the screen. A face that cannot
//! be shaded or projected is left out of this frame.

use vstd::prelude::*;
use std::cmp::Ordering;
use crate::camera::Camera;
use crate::camera::axis_z;
use crate::camera::direction;
use crate::color::Color;
use crate::color::color_mul;
use crate::color::shade;
use crate::fixed::PI;
use crate::fixed::UNIT;
use crate::fixed::fits_i64;
use crate::fixed::round_div;
use crate::fixed::div_round;
use crate::fixed::lemma_round_div_size;
use crate::fixed::lemma_round_div_monotonic;
use crate::point::ANGLE_LIMIT;
use crate::point::Point2D;
use crate::point::Point3D;
use crate::point::Vec3;
use crate::point::WORLD_LIMIT;
use crate::point::lemma_product_within;
use crate::point::lemma_rotate_size;
use crate::point::lemma_rounded_size;
use crate::rotation::Angles;
use crate::screen::Screen;
use crate::square::Square;
use crate::square::lemma_distance_in_world;
use crate::square::lemma_normal_in_world;

verus! {

/// The largest size of a shading factor: one over pi, as a raw scalar.
pub const LUMEN_MAX: i64 = 20861;

/// A filled polygon of the screen: four pixels in order and a color.
#[derive(Debug, Clone, Copy)]
pub struct Polygon {
    pub points: [Point2D; 4],
    pub color: Color,
}

/// Whether a face with the normal `normal` shows its back to a viewer who
/// looks along `forward`: the dot product of the two is positive.
pub open spec fn shows_back(normal: Vec3, forward: Vec3) -> bool {
    normal.dot(forward) > 0
}

/// The shading factor of a face with the normal `normal` for a viewer who
/// looks along `forward`: the cosine of the angle between the two, over pi.
pub open spec fn shading(normal: Vec3, forward: Vec3) -> int
    recommends
        normal.norm() * forward.norm() != 0,
{
    round_div(normal.angle(forward) * UNIT, PI as int)
}

/// The pixel at which the point `point` of the world appears to a viewer at
/// `viewpoint` whose view is turned by `rot`: the point is turned about the
/// viewpoint, then projected.
pub open spec fn seen_at(point: Vec3, viewpoint: Vec3, rot: Angles, screen: Screen) -> Option<
    Point2D,
> {
    screen.spec_project(point.rotate(viewpoint, rot), viewpoint)
}

/// What is drawn for `square` on `screen` for a viewer at `viewpoint` whose
/// view is turned by `rot`: nothing where the face or the viewpoint lies out
/// of the world, where the face shows its back to the direction of view, where
/// its normal has length zero, or where one of its corners cannot be
/// projected; else the four projected corners and the shaded color.
pub open spec fn face_polygon(square: Square, viewpoint: Vec3, rot: Angles, screen: Screen)
    -> Option<Polygon> {
    let forward = direction(axis_z(), rot);
    let normal = square.spec_normal();
    let pixel0 = seen_at(square.corner(0), viewpoint, rot, screen);
    let pixel1 = seen_at(square.corner(1), viewpoint, rot, screen);
    let pixel2 = seen_at(square.corner(2), viewpoint, rot, screen);
    let pixel3 = seen_at(square.corner(3), viewpoint, rot, screen);
    if !drawable(square, viewpoint) || shows_back(normal, forward) || normal.norm()
        * forward.norm() == 0 || pixel0 is None || pixel1 is None || pixel2 is None || pixel3
        is None {
        None
    } else {
        Some(
            Polygon {
                points: [pixel0->0, pixel1->0, pixel2->0, pixel3->0],
                color: shade(square.color, shading(normal, forward)),
            },
        )
    }
}

/// Whether `square` can be drawn at all from `viewpoint`: the face and the
/// viewpoint lie in the world.
pub open spec fn drawable(square: Square, viewpoint: Vec3) -> bool {
    square.spec_in_world() && viewpoint.in_world()
}

/// Whether face `i` is drawn before face `j`: it is farther from the
/// viewpoint, or as far and earlier in the list.
pub open spec fn drawn_before(squares: Seq<Square>, viewpoint: Vec3, i: int, j: int) -> bool {
    let di = squares[i].distance(viewpoint);
    let dj = squares[j].distance(viewpoint);
    di > dj || (di == dj && i < j)
}

/// The number of the face at position `k` of a drawing order.
pub open spec fn picked(order: Seq<usize>, k: int) -> int {
    order[k] as int
}

/// Whether `order` is the drawing order of the first `n` faces of `squares`:
/// it names drawable faces among them only, each before all that are drawn
/// after it, and it names every drawable face among them.
pub open spec fn orders_first(order: Seq<usize>, squares: Seq<Square>, viewpoint: Vec3, n: int)
    -> bool {
    &&& forall|k: int|
        0 <= k < order.len() ==> 0 <= #[trigger] picked(order, k) < n && drawable(
            squares[picked(order, k)],
            viewpoint,
        )
    &&& forall|k: int, l: int|
        0 <= k < l < order.len() ==> drawn_before(
            squares,
            viewpoint,
            #[trigger] picked(order, k),
            #[trigger] picked(order, l),
        )
    &&& forall|i: int|
        0 <= i < n && drawable(#[trigger] squares[i], viewpoint) ==> exists|k: int|
            0 <= k < order.len() && #[trigger] picked(order, k) == i
}

/// Whether `order` is the drawing order of `squares` seen from `viewpoint`:
/// the numbers of the drawable faces, the farthest first, and of two that are
/// equally far the one with the smaller number first.
pub open spec fn is_draw_order(order: Seq<usize>, squares: Seq<Square>, viewpoint: Vec3) -> bool {
    orders_first(order, squares, viewpoint, squares.len() as int)
}

/// How many of the first `n` faces of `squares` are drawable from
/// `viewpoint`.
pub open spec fn drawable_count(squares: Seq<Square>, viewpoint: Vec3, n: int) -> int
    decreases n,
{
    if n <= 0 {
        0
    } else {
        drawable_count(squares, viewpoint, n - 1) + (if drawable(squares[n - 1], viewpoint) {
            1int
        } else {
            0int
        })
    }
}

/// The faces that `order` names, in its order.
pub open spec fn arranged(order: Seq<usize>, squares: Seq<Square>) -> Seq<Square> {
    Seq::new(order.len(), |k: int| squares[picked(order, k)])
}

/// What is drawn for the faces that `order` names, in its order.
pub open spec fn draw_list(
    order: Seq<usize>,
    squares: Seq<Square>,
    viewpoint: Vec3,
    rot: Angles,
    screen: Screen,
) -> Seq<Polygon>
    decreases order.len(),
{
    if order.len() == 0 {
        Seq::empty()
    } else {
        let rest = draw_list(order.drop_last(), squares, viewpoint, rot, screen);
        match face_polygon(squares[picked(order, order.len() - 1)], viewpoint, rot, screen) {
            Some(polygon) => rest.push(polygon),
            None => rest,
        }
    }
}

/// Whether a face with the normal `normal` shows its back to a viewer who
/// looks along `forward`.
pub fn is_back_face(normal: &Point3D, forward: &Point3D) -> (back: bool)
    requires
        fits_i64(normal@.dot(forward@)),
    ensures
        back == shows_back(normal@, forward@),
{
    let cross = normal.dot(forward);
    cross > 0
}

/// The shading factor of a face with the normal `normal` for a viewer who
/// looks along `forward`, or nothing where one of the two has length zero. It
/// lies between minus and plus one over pi.
pub fn lumen(normal: &Point3D, forward: &Point3D) -> (factor: Option<i64>)
    requires
        normal@.within(ANGLE_LIMIT as int),
        forward@.within(ANGLE_LIMIT as int),
    ensures
        normal@.norm() * forward@.norm() == 0 <==> factor is None,
        factor matches Some(l) ==> l == shading(normal@, forward@) && -LUMEN_MAX <= l
            <= LUMEN_MAX,
{
    match normal.angle(forward) {
        None => None,
        Some(a) => {
            proof {
                lemma_shading_range(a as int);
            }
            Some(div_round((a as i128) * (UNIT as i128), PI as i128) as i64)
        },
    }
}

/// A cosine between minus one and one gives a shading factor between minus
/// and plus one over pi.
pub proof fn lemma_shading_range(cosine: int)
    requires
        -UNIT <= cosine <= UNIT,
    ensures
        -LUMEN_MAX <= round_div(cosine * UNIT, PI as int) <= LUMEN_MAX,
        -0x1_0000_0000 <= cosine * UNIT <= 0x1_0000_0000,
{
    let pi = PI as int;
    assert(cosine * UNIT <= 0x1_0000_0000 && cosine * UNIT >= -0x1_0000_0000) by (nonlinear_arith)
        requires
            -0x1_0000 <= cosine <= 0x1_0000,
            UNIT == 0x1_0000,
    ;
    lemma_round_div_monotonic(cosine * UNIT, 0x1_0000_0000, pi);
    lemma_round_div_monotonic(-0x1_0000_0000, cosine * UNIT, pi);
    assert(round_div(0x1_0000_0000, pi) == 20861);
    crate::fixed::lemma_round_div_negate(0x1_0000_0000, pi);
}

/// A factor times a sum of three terms, term by term.
proof fn lemma_scaled_sum(a: int, p: int, q: int, r: int)
    ensures
        a * (p + q + r) == a * p + a * q + a * r,
{
    assert(a * (p + q + r) == a * p + a * q + a * r) by (nonlinear_arith);
}

/// A factor times a product, taken into the first factor of the product.
proof fn lemma_scaled_product(a: int, n: int, f: int)
    ensures
        a * (n * f) == (n * a) * f,
{
    assert(a * (n * f) == (n * a) * f) by (nonlinear_arith);
}

/// The exact dot product of a vector with a positive multiple of itself in
/// the sense that `a` times `normal` is `b` times `forward`: `a` times the
/// product is `b` times the squared length of `forward`.
proof fn lemma_dot_of_parallel(normal: Vec3, forward: Vec3, a: int, b: int)
    requires
        normal.times(a) == forward.times(b),
    ensures
        a * normal.dot_exact(forward) == b * forward.dot_exact(forward),
        forward.dot_exact(forward) >= 0,
{
    lemma_scaled_sum(a, normal.x * forward.x, normal.y * forward.y, normal.z * forward.z);
    lemma_scaled_product(a, normal.x, forward.x);
    lemma_scaled_product(a, normal.y, forward.y);
    lemma_scaled_product(a, normal.z, forward.z);
    lemma_scaled_sum(b, forward.x * forward.x, forward.y * forward.y, forward.z * forward.z);
    lemma_scaled_product(b, forward.x, forward.x);
    lemma_scaled_product(b, forward.y, forward.y);
    lemma_scaled_product(b, forward.z, forward.z);
    assert(forward.x * forward.x >= 0 && forward.y * forward.y >= 0 && forward.z * forward.z
        >= 0) by (nonlinear_arith);
}

/// A face whose normal points exactly along the direction of view shows its
/// back and is not drawn. The normal and the direction are parallel where a
/// positive multiple of the one is a positive multiple of the other; their dot
/// product must not round to zero.
pub proof fn lemma_aligned_shows_back(normal: Vec3, forward: Vec3, a: int, b: int)
    requires
        a > 0,
        b > 0,
        normal.times(a) == forward.times(b),
        normal.dot(forward) != 0,
    ensures
        shows_back(normal, forward),
{
    lemma_dot_of_parallel(normal, forward, a, b);
    let d = normal.dot_exact(forward);
    let ff = forward.dot_exact(forward);
    assert(d >= 0) by (nonlinear_arith)
        requires
            a * d == b * ff,
            a > 0,
            b > 0,
            ff >= 0,
    ;
    lemma_round_div_size(d, UNIT as int);
}

/// A face whose normal points exactly against the direction of view does not
/// show its back: it passes the test and is drawn where it can be shaded and
/// projected.
pub proof fn lemma_opposed_faces_viewer(normal: Vec3, forward: Vec3, a: int, b: int)
    requires
        a > 0,
        b > 0,
        normal.times(a) == forward.times(-b),
    ensures
        !shows_back(normal, forward),
{
    lemma_dot_of_parallel(normal, forward, a, -b);
    let d = normal.dot_exact(forward);
    let ff = forward.dot_exact(forward);
    assert(d <= 0) by (nonlinear_arith)
        requires
            a * d == (-b) * ff,
            a > 0,
            b > 0,
            ff >= 0,
    ;
    lemma_round_div_size(d, UNIT as int);
}

/// The pixel at which `corner` appears to the viewer `camera` on `screen`, or
/// nothing where it cannot be projected.
fn project_corner(corner: &Point3D, camera: &Camera, screen: &Screen) -> (pixel: Option<Point2D>)
    requires
        corner@.in_world(),
    ensures
        pixel == seen_at(corner@, camera.place(), camera.angles(), *screen),
{
    let p = camera.position();
    let rot = camera.rotation();
    proof {
        lemma_rotate_size(corner@, p@, rot@, WORLD_LIMIT as int);
    }
    let turned = corner.rotate(&p, &rot);
    screen.project(&turned, &p)
}

/// What is drawn for `square` on `screen` for the viewer `camera`, or nothing
/// where the face is left out.
pub fn shade_and_project(square: &Square, camera: &Camera, screen: &Screen) -> (polygon: Option<
    Polygon,
>)
    ensures
        polygon == face_polygon(*square, camera.place(), camera.angles(), *screen),
{
    if !square.in_world() {
        return None;
    }
    let p = camera.position();
    let dir_z = camera.forward();
    proof {
        lemma_face_in_world(*square, dir_z@);
    }
    let normal = square.normal();
    if is_back_face(&normal, &dir_z) {
        return None;
    }
    let factor = match lumen(&normal, &dir_z) {
        None => {
            return None;
        },
        Some(l) => l,
    };
    let pixel0 = match project_corner(&square.vertices[0], camera, screen) {
        None => {
            return None;
        },
        Some(p) => p,
    };
    let pixel1 = match project_corner(&square.vertices[1], camera, screen) {
        None => {
            return None;
        },
        Some(p) => p,
    };
    let pixel2 = match project_corner(&square.vertices[2], camera, screen) {
        None => {
            return None;
        },
        Some(p) => p,
    };
    let pixel3 = match project_corner(&square.vertices[3], camera, screen) {
        None => {
            return None;
        },
        Some(p) => p,
    };
    Some(
        Polygon {
            points: [pixel0, pixel1, pixel2, pixel3],
            color: color_mul(&square.color, factor),
        },
    )
}

/// A face in the world and a direction of view of a camera can be shaded and
/// projected in 64 bits.
pub proof fn lemma_face_in_world(square: Square, forward: Vec3)
    requires
        square.spec_in_world(),
        forward.within(29 * UNIT),
    ensures
        square.normal_fits(),
        fits_i64(square.spec_normal().dot(forward)),
        square.spec_normal().within(ANGLE_LIMIT as int),
        forward.within(ANGLE_LIMIT as int),
{
    lemma_normal_in_world(square);
    let n = square.spec_normal();
    let ln = 0x2_0000_0000_0001int;
    let lf = 29 * UNIT;
    assert(ln * lf == 0x2_0000_0000_0001 * 1900544) by (nonlinear_arith)
        requires
            ln == 0x2_0000_0000_0001,
            lf == 1900544,
    ;
    lemma_product_within(n.x, forward.x, ln, lf);
    lemma_product_within(n.y, forward.y, ln, lf);
    lemma_product_within(n.z, forward.z, ln, lf);
    lemma_rounded_size(n.dot_exact(forward), 3 * (ln * lf));
}

/// The position at which face `face` enters the drawing order `order` of the
/// faces before it: behind every face that is at least as far as it.
fn insertion_point(squares: &Vec<Square>, order: &Vec<usize>, face: usize, viewpoint: &Point3D)
    -> (pos: usize)
    requires
        face < squares.len(),
        drawable(squares[face as int], viewpoint@),
        orders_first(order@, squares@, viewpoint@, face as int),
    ensures
        pos <= order.len(),
        forall|k: int|
            0 <= k < pos ==> squares[#[trigger] picked(order@, k)].distance(viewpoint@)
                >= squares[face as int].distance(viewpoint@),
        forall|k: int|
            pos <= k < order.len() ==> squares[#[trigger] picked(order@, k)].distance(viewpoint@)
                < squares[face as int].distance(viewpoint@),
{
    let mut pos: usize = 0;
    let mut found = false;
    proof {
        lemma_distance_in_world(squares[face as int], viewpoint@);
    }
    while pos < order.len() && !found
        invariant
            pos <= order.len(),
            face < squares.len(),
            drawable(squares[face as int], viewpoint@),
            squares[face as int].distance_fits(viewpoint@),
            orders_first(order@, squares@, viewpoint@, face as int),
            forall|k: int|
                0 <= k < pos ==> squares[#[trigger] picked(order@, k)].distance(viewpoint@)
                    >= squares[face as int].distance(viewpoint@),
            found ==> pos < order.len() && squares[picked(order@, pos as int)].distance(
                viewpoint@,
            ) < squares[face as int].distance(viewpoint@),
        decreases 2 * (order.len() - pos) + (if found {
            0int
        } else {
            1int
        }),
    {
        let other = order[pos];
        proof {
            assert(picked(order@, pos as int) == other);
            lemma_distance_in_world(squares[other as int], viewpoint@);
        }
        let nearer = nearer_than(&squares[other], &squares[face], viewpoint);
        if nearer {
            found = true;
        } else {
            pos += 1;
        }
    }
    proof {
        assert forall|k: int| pos <= k < order.len() implies squares[#[trigger] picked(
            order@,
            k,
        )].distance(viewpoint@) < squares[face as int].distance(viewpoint@) by {
            if k > pos {
                assert(drawn_before(
                    squares@,
                    viewpoint@,
                    picked(order@, pos as int),
                    picked(order@, k),
                ));
            }
        }
    }
    pos
}

/// Whether `s1` is nearer to `p` than `s2`.
fn nearer_than(s1: &Square, s2: &Square, p: &Point3D) -> (nearer: bool)
    requires
        s1.distance_fits(p@),
        s2.distance_fits(p@),
    ensures
        nearer == (s1.distance(p@) < s2.distance(p@)),
{
    match Square::closer_to_point(s1, s2, p) {
        Ordering::Less => true,
        _ => false,
    }
}

/// The drawing order of `squares` seen from `viewpoint`: the numbers of the
/// faces that lie in the world, the farthest first, and of two that are
/// equally far the one with the smaller number first. From a viewpoint out of
/// the world no face is drawn.
pub fn draw_order(squares: &Vec<Square>, viewpoint: &Point3D) -> (order: Vec<usize>)
    ensures
        is_draw_order(order@, squares@, viewpoint@),
        order@.len() == drawable_count(squares@, viewpoint@, squares@.len() as int),
{
    let mut order: Vec<usize> = Vec::new();
    if !viewpoint.in_world() {
        proof {
            lemma_nothing_drawable(squares@, viewpoint@, squares@.len() as int);
        }
        return order;
    }
    let mut i: usize = 0;
    while i < squares.len()
        invariant
            i <= squares.len(),
            viewpoint@.in_world(),
            orders_first(order@, squares@, viewpoint@, i as int),
            order@.len() == drawable_count(squares@, viewpoint@, i as int),
        decreases squares.len() - i,
    {
        if squares[i].in_world() {
            let pos = insertion_point(squares, &order, i, viewpoint);
            let ghost before = order@;
            order.insert(pos, i);
            proof {
                lemma_insert_keeps_order(before, squares@, viewpoint@, i as int, pos as int);
            }
        }
        i += 1;
    }
    order
}

/// Sorts `squares` by their distance from `viewpoint`, the farthest first;
/// faces that are equally far keep their order. The faces and the viewpoint
/// must lie in the world.
pub fn sort_by_distance(squares: &mut Vec<Square>, viewpoint: &Point3D)
    requires
        forall|i: int|
            0 <= i < old(squares)@.len() ==> drawable(#[trigger] old(squares)@[i], viewpoint@),
    ensures
        final(squares)@.len() == old(squares)@.len(),
        exists|order: Seq<usize>|
            #[trigger] is_draw_order(order, old(squares)@, viewpoint@) && final(squares)@
                == arranged(order, old(squares)@),
{
    let order = draw_order(squares, viewpoint);
    proof {
        lemma_all_drawable(squares@, viewpoint@, squares@.len() as int);
    }
    let mut sorted: Vec<Square> = Vec::new();
    let mut k: usize = 0;
    while k < order.len()
        invariant
            k <= order.len(),
            is_draw_order(order@, squares@, viewpoint@),
            sorted@ == arranged(order@.take(k as int), squares@),
        decreases order.len() - k,
    {
        let face = order[k];
        proof {
            assert(picked(order@, k as int) == face);
        }
        sorted.push(squares[face]);
        proof {
            assert(sorted@ =~= arranged(order@.take(k + 1), squares@));
        }
        k += 1;
    }
    proof {
        assert(order@.take(order.len() as int) =~= order@);
    }
    *squares = sorted;
}

/// Where all of the first `n` faces are drawable, their count is `n`.
proof fn lemma_all_drawable(squares: Seq<Square>, viewpoint: Vec3, n: int)
    requires
        0 <= n <= squares.len(),
        forall|i: int| 0 <= i < n ==> drawable(#[trigger] squares[i], viewpoint),
    ensures
        drawable_count(squares, viewpoint, n) == n,
    decreases n,
{
    if n > 0 {
        lemma_all_drawable(squares, viewpoint, n - 1);
    }
}

/// From a viewpoint out of the world no face is drawable.
proof fn lemma_nothing_drawable(squares: Seq<Square>, viewpoint: Vec3, n: int)
    requires
        !viewpoint.in_world(),
    ensures
        drawable_count(squares, viewpoint, n) == 0,
    decreases n,
{
    if n > 0 {
        lemma_nothing_drawable(squares, viewpoint, n - 1);
    }
}

/// A drawing order of the faces before face `i`, with `i` put in at the
/// position behind the faces that are at least as far and before the faces
/// that are nearer, is the drawing order of the faces up to `i`.
proof fn lemma_insert_keeps_order(
    before: Seq<usize>,
    squares: Seq<Square>,
    viewpoint: Vec3,
    i: int,
    pos: int,
)
    requires
        0 <= i < squares.len(),
        i <= usize::MAX,
        drawable(squares[i], viewpoint),
        orders_first(before, squares, viewpoint, i),
        0 <= pos <= before.len(),
        forall|k: int|
            0 <= k < pos ==> squares[#[trigger] picked(before, k)].distance(viewpoint)
                >= squares[i].distance(viewpoint),
        forall|k: int|
            pos <= k < before.len() ==> squares[#[trigger] picked(before, k)].distance(viewpoint)
                < squares[i].distance(viewpoint),
    ensures
        orders_first(before.insert(pos, i as usize), squares, viewpoint, i + 1),
{
    let after = before.insert(pos, i as usize);
    assert(after.len() == before.len() + 1);
    assert forall|k: int| 0 <= k < after.len() implies 0 <= #[trigger] picked(after, k) < i + 1
        && drawable(squares[picked(after, k)], viewpoint) by {
        if k < pos {
            assert(picked(after, k) == picked(before, k));
        } else if k > pos {
            assert(picked(after, k) == picked(before, k - 1));
        }
    }
    assert forall|k: int, l: int| 0 <= k < l < after.len() implies drawn_before(
        squares,
        viewpoint,
        #[trigger] picked(after, k),
        #[trigger] picked(after, l),
    ) by {
        if l < pos {
            assert(picked(after, k) == picked(before, k));
            assert(picked(after, l) == picked(before, l));
        } else if l == pos {
            assert(picked(after, k) == picked(before, k));
        } else if k < pos {
            assert(picked(after, k) == picked(before, k));
            assert(picked(after, l) == picked(before, l - 1));
        } else if k == pos {
            assert(picked(after, l) == picked(before, l - 1));
        } else {
            assert(picked(after, k) == picked(before, k - 1));
            assert(picked(after, l) == picked(before, l - 1));
        }
    }
    assert forall|j: int| 0 <= j < i + 1 && drawable(#[trigger] squares[j], viewpoint) implies (
    exists|k: int| 0 <= k < after.len() && #[trigger] picked(after, k) == j) by {
        if j == i {
            assert(picked(after, pos) == j);
        } else {
            let k = choose|k: int| 0 <= k < before.len() && #[trigger] picked(before, k) == j;
            if k < pos {
                assert(picked(after, k) == j);
            } else {
                assert(picked(after, k + 1) == picked(before, k));
            }
        }
    }
}

/// What is drawn of `squares` for the viewer `camera` on `screen`: the faces
/// in drawing order, without those that show their back to the direction of
/// view and without those that cannot be shaded or projected.
pub fn render(squares: &Vec<Square>, camera: &Camera, screen: &Screen) -> (polygons: Vec<Polygon>)
    ensures
        exists|order: Seq<usize>|
            #[trigger] is_draw_order(order, squares@, camera.place()) && polygons@ == draw_list(
                order,
                squares@,
                camera.place(),
                camera.angles(),
                *screen,
            ),
{
    let p = camera.position();
    let order = draw_order(squares, &p);
    let mut polygons: Vec<Polygon> = Vec::new();
    let mut k: usize = 0;
    while k < order.len()
        invariant
            k <= order.len(),
            is_draw_order(order@, squares@, camera.place()),
            polygons@ == draw_list(
                order@.take(k as int),
                squares@,
                camera.place(),
                camera.angles(),
                *screen,
            ),
        decreases order.len() - k,
    {
        let face = order[k];
        proof {
            assert(picked(order@, k as int) == face);
            let upto = order@.take(k + 1);
            assert(upto.drop_last() =~= order@.take(k as int));
            assert(picked(upto, upto.len() - 1) == face);
        }
        match shade_and_project(&squares[face], camera, screen) {
            Some(polygon) => {
                polygons.push(polygon);
            },
            None => {},
        }
        k += 1;
    }
    proof {
        assert(order@.take(order.len() as int) =~= order@);
    }
    polygons
}

/// Two drawing orders of the same faces from the same viewpoint agree on
/// their first `k` positions.
proof fn lemma_orders_agree(
    a: Seq<usize>,
    b: Seq<usize>,
    squares: Seq<Square>,
    viewpoint: Vec3,
    k: int,
)
    requires
        is_draw_order(a, squares, viewpoint),
        is_draw_order(b, squares, viewpoint),
        0 <= k <= a.len(),
    ensures
        k <= b.len(),
        forall|j: int| 0 <= j < k ==> #[trigger] picked(a, j) == picked(b, j),
    decreases k,
{
    if k > 0 {
        lemma_orders_agree(a, b, squares, viewpoint, k - 1);
        let x = picked(a, k - 1);
        assert(drawable(squares[x], viewpoint));
        let m = choose|m: int| 0 <= m < b.len() && #[trigger] picked(b, m) == x;
        if m < k - 1 {
            assert(picked(a, m) == picked(b, m));
            assert(drawn_before(squares, viewpoint, picked(a, m), picked(a, k - 1)));
            assert(false);
        }
        if m > k - 1 {
            let y = picked(b, k - 1);
            assert(drawn_before(squares, viewpoint, picked(b, k - 1), picked(b, m)));
            assert(drawable(squares[y], viewpoint));
            let n = choose|n: int| 0 <= n < a.len() && #[trigger] picked(a, n) == y;
            if n < k - 1 {
                assert(picked(a, n) == picked(b, n));
                assert(drawn_before(squares, viewpoint, picked(b, n), picked(b, k - 1)));
                assert(false);
            } else if n > k - 1 {
                assert(drawn_before(squares, viewpoint, picked(a, k - 1), picked(a, n)));
                assert(false);
            }
            assert(false);
        }
        assert(picked(b, k - 1) == x);
    }
}

/// The faces and the viewpoint fix the drawing order: two drawing orders of
/// the same faces from the same viewpoint are equal.
pub proof fn lemma_draw_order_unique(
    a: Seq<usize>,
    b: Seq<usize>,
    squares: Seq<Square>,
    viewpoint: Vec3,
)
    requires
        is_draw_order(a, squares, viewpoint),
        is_draw_order(b, squares, viewpoint),
    ensures
        a == b,
{
    lemma_orders_agree(a, b, squares, viewpoint, a.len() as int);
    lemma_orders_agree(b, a, squares, viewpoint, b.len() as int);
    assert forall|j: int| 0 <= j < a.len() implies a[j] == b[j] by {
        assert(picked(a, j) == picked(b, j));
    }
    assert(a =~= b);
}

} // verus!
