use engine3d::camera::{ANGLE_STEP, STEP};
use engine3d::point::WORLD_LIMIT;
use engine3d::trig::{rad, QUARTER_TURN};
use engine3d::{Camera, Command, Point3D, Rotation, Rotation3, UNIT};

fn p(x: i64, y: i64, z: i64) -> Point3D {
    Point3D::new(x * UNIT, y * UNIT, z * UNIT)
}

fn start() -> Camera {
    Camera::new(Point3D::zero(), Rotation3::new(0, 0, 0)).unwrap()
}

#[test]
fn the_steps_are_twenty_units_and_five_degrees() {
    assert_eq!(STEP, 20);
    assert_eq!(ANGLE_STEP, rad(5 * UNIT));
}

#[test]
fn camera_new_keeps_position_and_rotation() {
    let c = Camera::new(p(1, 2, 3), Rotation3::new(4, 5, 6)).unwrap();
    assert_eq!(c.position(), p(1, 2, 3));
    assert_eq!(c.rotation(), Rotation3::new(4, 5, 6));
}

#[test]
fn camera_new_out_of_the_world_is_nothing() {
    let r = Rotation3::new(0, 0, 0);
    assert!(Camera::new(Point3D::new(WORLD_LIMIT, -WORLD_LIMIT, 0), r).is_some());
    assert!(Camera::new(Point3D::new(WORLD_LIMIT + 1, 0, 0), r).is_none());
    assert!(Camera::new(Point3D::new(0, -WORLD_LIMIT - 1, 0), r).is_none());
    assert!(Camera::new(Point3D::new(0, 0, i64::MAX), r).is_none());
}

#[test]
fn camera_new_with_an_angle_that_has_no_opposite_is_nothing() {
    let o = Point3D::zero();
    assert!(Camera::new(o, Rotation3::new(i64::MIN + 1, i64::MAX, 0)).is_some());
    assert!(Camera::new(o, Rotation3::new(i64::MIN, 0, 0)).is_none());
    assert!(Camera::new(o, Rotation3::new(0, i64::MIN, 0)).is_none());
    assert!(Camera::new(o, Rotation3::new(0, 0, i64::MIN)).is_none());
}

#[test]
fn without_a_turn_the_viewer_looks_along_the_third_axis() {
    let c = start();
    assert_eq!(c.forward(), Point3D::unit_z());
    assert_eq!(c.right(), Point3D::unit_x());
}

#[test]
fn the_six_moves_without_a_turn() {
    let moves = [
        (Command::Forward, p(0, 0, 20)),
        (Command::Back, p(0, 0, -20)),
        (Command::Right, p(20, 0, 0)),
        (Command::Left, p(-20, 0, 0)),
        (Command::Up, p(0, 20, 0)),
        (Command::Down, p(0, -20, 0)),
    ];
    for (command, target) in moves.iter() {
        let mut c = start();
        assert!(c.apply(*command));
        assert_eq!(c.position(), *target);
        assert_eq!(c.rotation(), Rotation3::new(0, 0, 0));
    }
}

#[test]
fn the_four_turns() {
    let turns = [
        (Command::PitchUp, Rotation3::new(ANGLE_STEP, 0, 0)),
        (Command::PitchDown, Rotation3::new(-ANGLE_STEP, 0, 0)),
        (Command::YawUp, Rotation3::new(0, ANGLE_STEP, 0)),
        (Command::YawDown, Rotation3::new(0, -ANGLE_STEP, 0)),
    ];
    for (command, target) in turns.iter() {
        let mut c = Camera::new(p(1, 2, 3), Rotation3::new(0, 0, 0)).unwrap();
        assert!(c.apply(*command));
        assert_eq!(c.rotation(), *target);
        assert_eq!(c.position(), p(1, 2, 3));
    }
}

#[test]
fn quit_ends_the_session_and_changes_nothing() {
    let mut c = Camera::new(p(1, 2, 3), Rotation3::new(4, 5, 6)).unwrap();
    assert!(!c.apply(Command::Quit));
    assert_eq!(c.position(), p(1, 2, 3));
    assert_eq!(c.rotation(), Rotation3::new(4, 5, 6));
}

#[test]
fn moves_follow_the_turned_view() {
    let mut c = start();
    c.apply(Command::YawUp);
    assert_eq!(c.forward(), Point3D::new(-5711, 0, 65286));
    assert_eq!(c.right(), Point3D::new(65286, 0, 5711));
    c.apply(Command::Forward);
    assert_eq!(c.position(), Point3D::new(-5711 * 20, 0, 65286 * 20));
    c.apply(Command::Left);
    assert_eq!(c.position(), Point3D::new(-5711 * 20 - 65286 * 20, 0, 65286 * 20 - 5711 * 20));
}

#[test]
fn up_and_down_do_not_follow_the_view() {
    let mut c = Camera::new(Point3D::zero(), Rotation3::new(QUARTER_TURN, 12345, 0)).unwrap();
    c.apply(Command::Up);
    assert_eq!(c.position(), p(0, 20, 0));
    c.apply(Command::Down);
    c.apply(Command::Down);
    assert_eq!(c.position(), p(0, -20, 0));
}

#[test]
fn forward_is_the_third_axis_turned_by_the_reverse() {
    let r = Rotation3::new(30000, -77777, 0);
    let c = Camera::new(Point3D::zero(), r).unwrap();
    assert_eq!(c.forward(), Point3D::unit_z().rotate(&Point3D::zero(), &r.revert()));
    assert_eq!(c.right(), Point3D::unit_x().rotate(&Point3D::zero(), &r.revert()));
}

#[test]
fn a_move_out_of_the_world_is_not_made() {
    let edge = Point3D::new(WORLD_LIMIT - 19 * UNIT, 0, WORLD_LIMIT - 20 * UNIT);
    let mut c = Camera::new(edge, Rotation3::new(0, 0, 0)).unwrap();
    assert!(c.apply(Command::Right));
    assert_eq!(c.position(), edge);
    assert!(c.apply(Command::Forward));
    assert_eq!(c.position(), Point3D::new(WORLD_LIMIT - 19 * UNIT, 0, WORLD_LIMIT));
    assert!(c.apply(Command::Forward));
    assert_eq!(c.position(), Point3D::new(WORLD_LIMIT - 19 * UNIT, 0, WORLD_LIMIT));
    assert!(c.apply(Command::Left));
    assert_eq!(c.position(), Point3D::new(WORLD_LIMIT - 39 * UNIT, 0, WORLD_LIMIT));
}

#[test]
fn a_turn_out_of_the_range_of_the_angles_is_not_made() {
    let mut c =
        Camera::new(Point3D::zero(), Rotation3::new(i64::MAX - 5718, i64::MIN + 5719, 0)).unwrap();
    assert!(c.apply(Command::PitchUp));
    assert_eq!(c.rotation(), Rotation3::new(i64::MAX - 5718, i64::MIN + 5719, 0));
    assert!(c.apply(Command::YawDown));
    assert_eq!(c.rotation(), Rotation3::new(i64::MAX - 5718, i64::MIN + 5719, 0));
    assert!(c.apply(Command::PitchDown));
    assert!(c.apply(Command::YawUp));
    assert_eq!(c.rotation(), Rotation3::new(i64::MAX - 2 * 5719 + 1, i64::MIN + 2 * 5719, 0));
}

#[test]
fn angles_add_up_over_many_turns() {
    let mut c = start();
    for _ in 0..100 {
        c.apply(Command::YawUp);
    }
    assert_eq!(c.rotation(), Rotation3::new_axis(100 * ANGLE_STEP, Rotation::Y));
    for _ in 0..100 {
        c.apply(Command::YawDown);
    }
    assert_eq!(c.rotation(), Rotation3::new(0, 0, 0));
}
