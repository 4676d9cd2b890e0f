use engine3d::color::color_mul;
use engine3d::{Color, UNIT};

#[test]
fn color_new_keeps_the_channels() {
    let c = Color::new(1, 2, 3, 4);
    assert_eq!((c.r, c.g, c.b, c.a), (1, 2, 3, 4));
}

#[test]
fn color_mul_by_one_changes_nothing() {
    let c = Color::new(0, 255, 17, 200);
    assert_eq!(color_mul(&c, UNIT), c);
}

#[test]
fn color_mul_rounds_each_channel() {
    // 255 / 2 = 127.5 and 1 / 2 = 0.5 round away from zero, 100 / 2 is exact
    assert_eq!(color_mul(&Color::new(255, 1, 100, 9), UNIT / 2), Color::new(128, 1, 50, 9));
    // one third of 100 is 33.33
    assert_eq!(color_mul(&Color::new(100, 0, 2, 9), UNIT / 3), Color::new(33, 0, 1, 9));
}

#[test]
fn color_mul_limits_each_channel() {
    assert_eq!(color_mul(&Color::new(200, 1, 0, 7), 2 * UNIT), Color::new(255, 2, 0, 7));
    assert_eq!(color_mul(&Color::new(200, 1, 0, 7), i64::MAX), Color::new(255, 255, 0, 7));
}

#[test]
fn color_mul_by_a_negative_factor_is_black() {
    assert_eq!(color_mul(&Color::new(200, 1, 255, 7), -20861), Color::new(0, 0, 0, 7));
    assert_eq!(color_mul(&Color::new(200, 1, 255, 7), i64::MIN), Color::new(0, 0, 0, 7));
    assert_eq!(color_mul(&Color::new(200, 1, 255, 7), 0), Color::new(0, 0, 0, 7));
}

#[test]
fn color_mul_keeps_the_opacity() {
    for a in [0u8, 1, 128, 255] {
        assert_eq!(color_mul(&Color::new(10, 20, 30, a), UNIT / 2).a, a);
    }
}
