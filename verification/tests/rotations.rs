use engine3d::trig::{deg, rad};
use engine3d::{Rotation, Rotation3, UNIT};

#[test]
fn rotation3_new_keeps_the_angles() {
    let r = Rotation3::new(1, -2, 3);
    assert_eq!((r.rot_x, r.rot_y, r.rot_z), (1, -2, 3));
}

#[test]
fn new_axis_sets_one_angle() {
    assert_eq!(Rotation3::new_axis(7, Rotation::X), Rotation3::new(7, 0, 0));
    assert_eq!(Rotation3::new_axis(7, Rotation::Y), Rotation3::new(0, 7, 0));
    assert_eq!(Rotation3::new_axis(7, Rotation::Z), Rotation3::new(0, 0, 7));
}

#[test]
fn revert_negates_each_angle() {
    assert_eq!(Rotation3::new(1, -2, 3).revert(), Rotation3::new(-1, 2, -3));
    assert_eq!(Rotation3::new(1, -2, 3).revert().revert(), Rotation3::new(1, -2, 3));
    assert_eq!(
        Rotation3::new(i64::MAX, 0, -i64::MAX).revert(),
        Rotation3::new(-i64::MAX, 0, i64::MAX)
    );
}

#[test]
fn add_and_sub_work_by_angle() {
    let a = Rotation3::new(1, 2, 3);
    let b = Rotation3::new(10, -20, 30);
    assert_eq!(a.add(&b), Rotation3::new(11, -18, 33));
    assert_eq!(a.sub(&b), Rotation3::new(-9, 22, -27));
    assert_eq!(a.add(&a.revert()), Rotation3::new(0, 0, 0));
}

#[test]
fn add_assign_and_sub_assign_change_in_place() {
    let mut r = Rotation3::new(1, 2, 3);
    r.add_assign(Rotation3::new_axis(5, Rotation::Y));
    assert_eq!(r, Rotation3::new(1, 7, 3));
    r.sub_assign(Rotation3::new_axis(5, Rotation::X));
    assert_eq!(r, Rotation3::new(-4, 7, 3));
}

#[test]
fn angles_grow_without_being_reduced() {
    let mut r = Rotation3::new(0, 0, 0);
    for _ in 0..1000 {
        r.add_assign(Rotation3::new_axis(5719, Rotation::Y));
    }
    assert_eq!(r, Rotation3::new(0, 5_719_000, 0));
}

#[test]
fn rad_converts_degrees() {
    assert_eq!(rad(75 * UNIT), 85786);
    assert_eq!(rad(5 * UNIT), 5719);
    assert_eq!(rad(180 * UNIT), 205887);
    assert_eq!(rad(-180 * UNIT), -205887);
    assert_eq!(rad(0), 0);
}

#[test]
fn deg_converts_radians() {
    assert_eq!(deg(205887), 180 * UNIT);
    assert_eq!(deg(-205887), -180 * UNIT);
    assert_eq!(deg(0), 0);
    let d = deg(UNIT);
    assert!((d as f64 / UNIT as f64 - 57.29578).abs() < 0.001, "{}", d);
}
