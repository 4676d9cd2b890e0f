use engine3d::point::ANGLE_LIMIT;
use engine3d::trig::QUARTER_TURN;
use engine3d::{Point3D, Rotation, Rotation3, UNIT};

fn p(x: i64, y: i64, z: i64) -> Point3D {
    Point3D::new(x * UNIT, y * UNIT, z * UNIT)
}

#[test]
fn new_keeps_the_three_coordinates() {
    let v = Point3D::new(1, -2, 3);
    assert_eq!((v.x, v.y, v.z), (1, -2, 3));
}

#[test]
fn the_axes_have_length_one() {
    assert_eq!(Point3D::zero(), Point3D::new(0, 0, 0));
    assert_eq!(Point3D::unit_x(), Point3D::new(UNIT, 0, 0));
    assert_eq!(Point3D::unit_y(), Point3D::new(0, UNIT, 0));
    assert_eq!(Point3D::unit_z(), Point3D::new(0, 0, UNIT));
    assert_eq!(Point3D::unit_x().norm(), UNIT);
}

#[test]
fn add_and_sub_work_by_coordinate() {
    let a = p(1, 2, 3);
    let b = p(10, -20, 30);
    assert_eq!(a.add(&b), p(11, -18, 33));
    assert_eq!(a.sub(&b), p(-9, 22, -27));
    assert_eq!(a.add(&b).sub(&b), a);
}

#[test]
fn add_reaches_the_ends_of_the_range() {
    let a = Point3D::new(i64::MAX - 1, i64::MIN + 1, 0);
    let b = Point3D::new(1, -1, 0);
    assert_eq!(a.add(&b), Point3D::new(i64::MAX, i64::MIN, 0));
}

#[test]
fn times_multiplies_by_a_whole_number() {
    assert_eq!(p(1, -2, 3).times(20), p(20, -40, 60));
    assert_eq!(p(1, -2, 3).times(-1), p(-1, 2, -3));
    assert_eq!(p(1, -2, 3).times(0), p(0, 0, 0));
}

#[test]
fn scale_multiplies_by_a_fixed_point_factor() {
    assert_eq!(p(2, -4, 6).scale(UNIT / 2), p(1, -2, 3));
    assert_eq!(p(2, -4, 6).scale(3 * UNIT), p(6, -12, 18));
    // 3 steps times one half is a step and a half, which rounds away from zero
    assert_eq!(Point3D::new(3, -3, 1).scale(UNIT / 2), Point3D::new(2, -2, 1));
}

#[test]
fn dot_of_whole_vectors_is_exact() {
    assert_eq!(p(1, 2, 3).dot(&p(4, -5, 6)), (4 - 10 + 18) * UNIT);
    assert_eq!(p(1, 0, 0).dot(&p(0, 1, 0)), 0);
    assert_eq!(p(3, 4, 0).dot(&p(3, 4, 0)), 25 * UNIT);
}

#[test]
fn dot_rounds_once() {
    // 3 steps times one half: a step and a half, rounded away from zero
    assert_eq!(Point3D::new(3, 0, 0).dot(&Point3D::new(UNIT / 2, 0, 0)), 2);
    assert_eq!(Point3D::new(-3, 0, 0).dot(&Point3D::new(UNIT / 2, 0, 0)), -2);
    // the three products are summed before the rounding
    let third = Point3D::new(1, 1, 1);
    assert_eq!(third.dot(&Point3D::new(UNIT / 4, UNIT / 4, UNIT / 4)), 1);
}

#[test]
fn cross_of_the_axes_is_right_handed() {
    let x = Point3D::unit_x();
    let y = Point3D::unit_y();
    let z = Point3D::unit_z();
    assert_eq!(x.cross(&y), z);
    assert_eq!(y.cross(&z), x);
    assert_eq!(z.cross(&x), y);
    assert_eq!(x.cross(&x), Point3D::zero());
}

#[test]
fn cross_of_whole_vectors() {
    assert_eq!(p(1, 2, 3).cross(&p(4, 5, 6)), p(-3, 6, -3));
}

#[test]
fn cross_changes_sign_when_the_arguments_change_places() {
    let vectors = [
        p(1, 2, 3),
        p(-4, 5, 6),
        Point3D::new(12345, -67890, 13579),
        Point3D::new(-1, 1, 32768),
        Point3D::new(3, 0, 98765),
        p(0, 0, 0),
    ];
    for a in vectors.iter() {
        for b in vectors.iter() {
            let ab = a.cross(b);
            let ba = b.cross(a);
            assert_eq!(ab, Point3D::new(-ba.x, -ba.y, -ba.z));
        }
    }
}

#[test]
fn norm_is_the_rounded_down_length() {
    assert_eq!(p(3, 4, 0).norm(), 5 * UNIT);
    assert_eq!(p(0, 0, 0).norm(), 0);
    assert_eq!(Point3D::new(1, 1, 0).norm(), 1);
    assert_eq!(Point3D::new(1, 1, 1).norm(), 1);
    assert_eq!(Point3D::new(2, 2, 1).norm(), 3);
    assert_eq!(p(1, 1, 1).norm(), 113511);
}

#[test]
fn normalize_gives_length_one() {
    assert_eq!(p(3, 4, 0).normalize(), Some(Point3D::new(39322, 52429, 0)));
    assert_eq!(p(0, 0, -7).normalize(), Some(Point3D::new(0, 0, -UNIT)));
    assert_eq!(Point3D::new(i64::MAX, 0, 0).normalize(), Some(Point3D::new(UNIT, 0, 0)));
}

#[test]
fn normalize_of_the_zero_vector_is_nothing() {
    assert_eq!(p(0, 0, 0).normalize(), None);
}

#[test]
fn angle_is_the_cosine() {
    assert_eq!(p(1, 0, 0).angle(&p(5, 0, 0)), Some(UNIT));
    assert_eq!(p(1, 0, 0).angle(&p(-5, 0, 0)), Some(-UNIT));
    assert_eq!(p(1, 0, 0).angle(&p(0, 3, 0)), Some(0));
    // 45 degrees: the square root of one half
    let c = p(1, 0, 0).angle(&p(1, 1, 0)).unwrap();
    assert!((c - 46341).abs() <= 1, "{}", c);
}

#[test]
fn angle_with_the_zero_vector_is_nothing() {
    assert_eq!(p(0, 0, 0).angle(&p(1, 0, 0)), None);
    assert_eq!(p(1, 0, 0).angle(&p(0, 0, 0)), None);
}

#[test]
fn angle_of_short_vectors_is_limited_to_one() {
    // the lengths round down to one step each, the dot product is two
    assert_eq!(Point3D::new(1, 1, 0).angle(&Point3D::new(1, 1, 0)), Some(UNIT));
    assert_eq!(Point3D::new(1, 1, 0).angle(&Point3D::new(-1, -1, 0)), Some(-UNIT));
}

#[test]
fn angle_at_the_limit_of_its_range() {
    let a = Point3D::new(ANGLE_LIMIT, ANGLE_LIMIT, ANGLE_LIMIT);
    let b = Point3D::new(-ANGLE_LIMIT, -ANGLE_LIMIT, -ANGLE_LIMIT);
    assert_eq!(a.angle(&a), Some(UNIT));
    assert_eq!(a.angle(&b), Some(-UNIT));
}

#[test]
fn within_compares_each_coordinate() {
    assert!(Point3D::new(5, -5, 0).within(5));
    assert!(!Point3D::new(6, 0, 0).within(5));
    assert!(!Point3D::new(0, -6, 0).within(5));
    assert!(!Point3D::new(0, 0, 6).within(5));
    assert!(Point3D::new(1 << 31, -(1 << 31), 0).in_world());
    assert!(!Point3D::new((1 << 31) + 1, 0, 0).in_world());
}

#[test]
fn quarter_turns_about_each_axis() {
    let o = Point3D::zero();
    let about_x = Rotation3::new_axis(QUARTER_TURN, Rotation::X);
    let about_y = Rotation3::new_axis(QUARTER_TURN, Rotation::Y);
    let about_z = Rotation3::new_axis(QUARTER_TURN, Rotation::Z);
    // about the first axis the second goes to the third
    assert_eq!(Point3D::unit_y().rotate(&o, &about_x), Point3D::unit_z());
    assert_eq!(Point3D::unit_z().rotate(&o, &about_x), Point3D::new(0, -UNIT, 0));
    assert_eq!(Point3D::unit_x().rotate(&o, &about_x), Point3D::unit_x());
    // about the second axis the third goes to the first
    assert_eq!(Point3D::unit_z().rotate(&o, &about_y), Point3D::unit_x());
    assert_eq!(Point3D::unit_x().rotate(&o, &about_y), Point3D::new(0, 0, -UNIT));
    assert_eq!(Point3D::unit_y().rotate(&o, &about_y), Point3D::unit_y());
    // about the third axis the first goes to the second
    assert_eq!(Point3D::unit_x().rotate(&o, &about_z), Point3D::unit_y());
    assert_eq!(Point3D::unit_y().rotate(&o, &about_z), Point3D::new(-UNIT, 0, 0));
    assert_eq!(Point3D::unit_z().rotate(&o, &about_z), Point3D::unit_z());
}

#[test]
fn rotate_turns_about_the_center() {
    let center = p(10, 10, 10);
    let about_z = Rotation3::new_axis(QUARTER_TURN, Rotation::Z);
    assert_eq!(p(11, 10, 10).rotate(&center, &about_z), p(10, 11, 10));
    assert_eq!(center.rotate(&center, &about_z), center);
}

#[test]
fn rotate_applies_the_first_axis_first() {
    let o = Point3D::zero();
    let both = Rotation3::new(QUARTER_TURN, QUARTER_TURN, 0);
    // about the first axis the first axis stays; about the second it goes to
    // the opposite of the third
    assert_eq!(Point3D::unit_x().rotate(&o, &both), Point3D::new(0, 0, -UNIT));
    // the second axis goes to the third, and that to the first
    assert_eq!(Point3D::unit_y().rotate(&o, &both), Point3D::unit_x());
}

#[test]
fn rotate_by_exact_values() {
    let point = Point3D::new(3 * UNIT + 17, -2 * UNIT + 5, 7 * UNIT - 9);
    let center = Point3D::new(UNIT, UNIT / 2, -UNIT);
    assert_eq!(
        point.rotate(&center, &Rotation3::new(30000, 0, 0)),
        Point3D::new(196625, -345898, 332355)
    );
    assert_eq!(
        point.rotate(&center, &Rotation3::new(0, -77777, 0)),
        Point3D::new(-371439, -131067, 252424)
    );
    assert_eq!(
        point.rotate(&center, &Rotation3::new(0, 0, 123456)),
        Point3D::new(181050, 207932, 458743)
    );
}

#[test]
fn rotate_by_zero_changes_nothing() {
    let point = Point3D::new(3 * UNIT + 17, -2 * UNIT + 5, 7 * UNIT - 9);
    let center = Point3D::new(UNIT, UNIT / 2, -UNIT);
    assert_eq!(point.rotate(&center, &Rotation3::new(0, 0, 0)), point);
}

fn near(back: i64, start: i64, pivot: i64) -> bool {
    2 * UNIT * (back - start).abs() <= 4 * (start - pivot).abs() + 3 * UNIT
}

#[test]
fn rotate_and_revert_come_back() {
    let points = [
        Point3D::new(3 * UNIT + 17, -2 * UNIT + 5, 7 * UNIT - 9),
        p(20, 20, 150),
        p(-300, 7, 0),
        Point3D::new(1, 2, 3),
    ];
    let centers = [Point3D::zero(), Point3D::new(UNIT, UNIT / 2, -UNIT), p(50, -50, 50)];
    let axes = [Rotation::X, Rotation::Y, Rotation::Z];
    let angles = [0, 1, 5719, -5719, 30000, 51472, 102944, 123456, -400000, 1 << 40];
    for point in points.iter() {
        for center in centers.iter() {
            for axis in axes.iter() {
                for angle in angles.iter() {
                    let r = Rotation3::new_axis(*angle, *axis);
                    let there = point.rotate(center, &r);
                    let back = there.rotate(center, &r.revert());
                    assert!(near(back.x, point.x, center.x), "{:?} {:?} {:?}", point, r, back);
                    assert!(near(back.y, point.y, center.y), "{:?} {:?} {:?}", point, r, back);
                    assert!(near(back.z, point.z, center.z), "{:?} {:?} {:?}", point, r, back);
                }
            }
        }
    }
}

#[test]
fn rotate_and_revert_about_two_axes_do_not_come_back() {
    let o = Point3D::zero();
    let both = Rotation3::new(QUARTER_TURN, QUARTER_TURN, 0);
    let there = Point3D::unit_x().rotate(&o, &both);
    assert_eq!(there, Point3D::new(0, 0, -UNIT));
    assert_eq!(there.rotate(&o, &both.revert()), Point3D::new(0, -UNIT, 0));
}
