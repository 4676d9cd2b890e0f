use engine3d::screen::{FOV, WINDOW_HEIGHT, WINDOW_WIDTH};
use engine3d::trig::rad;
use engine3d::{Point2D, Point3D, Screen, UNIT};

fn p(x: i64, y: i64, z: i64) -> Point3D {
    Point3D::new(x * UNIT, y * UNIT, z * UNIT)
}

fn screen() -> Screen {
    Screen::new(1500, 1000, rad(75 * UNIT)).unwrap()
}

#[test]
fn the_window_is_1500_by_1000_with_75_degrees_of_view() {
    assert_eq!((WINDOW_WIDTH, WINDOW_HEIGHT), (1500, 1000));
    assert_eq!(FOV, rad(75 * UNIT));
    assert_eq!(Screen::new(WINDOW_WIDTH, WINDOW_HEIGHT, FOV), Some(screen()));
}

#[test]
fn screen_new_computes_the_focal_distance() {
    let s = screen();
    assert_eq!((s.width, s.height), (1500, 1000));
    assert_eq!(s.focal, 64055543);
    let exact = 1500.0 / (2.0 * (75.0f64.to_radians() / 2.0).tan());
    assert!((s.focal as f64 / UNIT as f64 - exact).abs() < 0.05);
}

#[test]
fn screen_new_with_a_quarter_turn_of_view() {
    // the tangent of half a quarter turn is one, up to a step of the sine
    let s = Screen::new(1000, 10, 102944).unwrap();
    assert_eq!(s.focal, 32767293);
    assert!((s.focal as f64 / UNIT as f64 - 500.0).abs() < 0.02);
}

#[test]
fn screen_new_without_a_field_of_view_is_nothing() {
    assert_eq!(Screen::new(1500, 1000, 0), None);
    // half of a full turn has the sine zero as well
    assert_eq!(Screen::new(1500, 1000, 2 * 205888), None);
}

#[test]
fn projection_is_the_same_each_time() {
    let s = screen();
    let o = Point3D::zero();
    let first = s.project(&p(10, 0, 100), &o);
    let second = s.project(&p(10, 0, 100), &o);
    assert_eq!(first, Some(Point2D::new(848, 500)));
    assert_eq!(first, second);
}

#[test]
fn projection_of_the_corners_of_a_cube() {
    let s = screen();
    let o = Point3D::zero();
    assert_eq!(s.project(&p(20, 20, 150), &o), Some(Point2D::new(880, 630)));
    assert_eq!(s.project(&p(20, 20, 170), &o), Some(Point2D::new(865, 615)));
    assert_eq!(s.project(&p(40, 20, 150), &o), Some(Point2D::new(1011, 630)));
    assert_eq!(s.project(&p(40, 0, 170), &o), Some(Point2D::new(980, 500)));
}

#[test]
fn projection_is_relative_to_the_viewpoint() {
    let s = screen();
    let v = p(5, -7, 30);
    assert_eq!(s.project(&p(15, -7, 130), &v), Some(Point2D::new(848, 500)));
    assert_eq!(s.project(&p(5, -7, 31), &v), Some(Point2D::new(750, 500)));
}

#[test]
fn projection_mirrors_points_behind_the_viewer() {
    let s = screen();
    let o = Point3D::zero();
    assert_eq!(s.project(&p(10, 0, -100), &o), Some(Point2D::new(652, 500)));
}

#[test]
fn projection_at_the_depth_of_the_viewpoint_is_nothing() {
    let s = screen();
    assert_eq!(s.project(&p(10, 0, 0), &Point3D::zero()), None);
    assert_eq!(s.project(&p(10, 3, 7), &p(0, 0, 7)), None);
    assert_eq!(s.project(&p(0, 0, 0), &p(0, 0, 0)), None);
}

#[test]
fn projection_out_of_the_range_of_a_pixel_is_nothing() {
    let s = screen();
    let o = Point3D::zero();
    // one step of depth: the offset is 977 * 30000 * 65536 pixels
    assert_eq!(s.project(&Point3D::new(30000 * UNIT, 0, 1), &o), None);
    assert_eq!(s.project(&Point3D::new(0, -30000 * UNIT, 1), &o), None);
    assert_eq!(s.project(&Point3D::new(i64::MAX, i64::MIN, 1), &Point3D::new(i64::MIN, i64::MAX, 0)), None);
}

#[test]
fn projection_at_the_ends_of_the_range_of_a_pixel() {
    let s = Screen { width: 0, height: 0, focal: UNIT };
    let o = Point3D::zero();
    let depth = UNIT;
    let max = i32::MAX as i64;
    assert_eq!(
        s.project(&Point3D::new(max * UNIT, -(max + 1) * UNIT, depth), &o),
        Some(Point2D::new(i32::MAX, i32::MIN))
    );
    assert_eq!(s.project(&Point3D::new((max + 1) * UNIT, 0, depth), &o), None);
    assert_eq!(s.project(&Point3D::new(0, -(max + 2) * UNIT, depth), &o), None);
}

#[test]
fn projection_rounds_to_the_nearest_pixel() {
    let s = Screen { width: 100, height: 100, focal: UNIT };
    let o = Point3D::zero();
    // offsets of a half and of minus a half round away from the middle
    assert_eq!(s.project(&Point3D::new(UNIT / 2, -UNIT / 2, UNIT), &o), Some(Point2D::new(51, 49)));
    assert_eq!(
        s.project(&Point3D::new(UNIT / 2 - 1, -UNIT / 2 + 1, UNIT), &o),
        Some(Point2D::new(50, 50))
    );
}
