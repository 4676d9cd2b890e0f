use engine3d::fixed::{div_round, isqrt, UNIT};
use engine3d::trig::{sin_cos, FULL_TURN, QUARTER_TURN};

#[test]
fn div_round_rounds_to_nearest() {
    assert_eq!(div_round(7, 2), 4);
    assert_eq!(div_round(-7, 2), -4);
    assert_eq!(div_round(7, -2), -4);
    assert_eq!(div_round(-7, -2), 4);
    assert_eq!(div_round(5, 3), 2);
    assert_eq!(div_round(4, 3), 1);
    assert_eq!(div_round(-4, 3), -1);
    assert_eq!(div_round(0, 5), 0);
    assert_eq!(div_round(1, 2), 1);
    assert_eq!(div_round(-1, 2), -1);
    assert_eq!(div_round(1, 3), 0);
}

#[test]
fn div_round_of_a_multiple_is_exact() {
    assert_eq!(div_round(65536 * 12345, 65536), 12345);
    assert_eq!(div_round(-65536 * 12345, 65536), -12345);
}

#[test]
fn isqrt_is_the_integer_part_of_the_root() {
    assert_eq!(isqrt(0), 0);
    assert_eq!(isqrt(1), 1);
    assert_eq!(isqrt(3), 1);
    assert_eq!(isqrt(4), 2);
    assert_eq!(isqrt(99), 9);
    assert_eq!(isqrt(100), 10);
    assert_eq!(isqrt(u128::MAX), u64::MAX);
    assert_eq!(isqrt(1u128 << 64), 1u64 << 32);
}

#[test]
fn sin_cos_at_the_quarter_turns() {
    assert_eq!(sin_cos(0), (0, UNIT));
    assert_eq!(sin_cos(QUARTER_TURN), (UNIT, 0));
    assert_eq!(sin_cos(2 * QUARTER_TURN), (0, -UNIT));
    assert_eq!(sin_cos(3 * QUARTER_TURN), (-UNIT, 0));
    assert_eq!(sin_cos(FULL_TURN), (0, UNIT));
    assert_eq!(sin_cos(-QUARTER_TURN), (-UNIT, 0));
}

#[test]
fn sin_cos_follows_the_real_functions() {
    let mut angle: i64 = -3 * FULL_TURN;
    while angle < 3 * FULL_TURN {
        let (s, c) = sin_cos(angle);
        let a = angle as f64 / UNIT as f64;
        assert!((s as f64 - a.sin() * UNIT as f64).abs() < 8.0, "sine of {}", angle);
        assert!((c as f64 - a.cos() * UNIT as f64).abs() < 8.0, "cosine of {}", angle);
        angle += 977;
    }
}

#[test]
fn sin_cos_is_odd_and_even() {
    let mut angle: i64 = 0;
    while angle < 2 * FULL_TURN {
        let (s, c) = sin_cos(angle);
        let (sn, cn) = sin_cos(-angle);
        assert_eq!(sn, -s);
        assert_eq!(cn, c);
        angle += 1231;
    }
}

#[test]
fn sin_cos_stays_on_the_unit_circle() {
    let mut angle: i64 = -FULL_TURN;
    while angle < FULL_TURN {
        let (s, c) = sin_cos(angle);
        let sum = s * s + c * c;
        assert!(sum <= UNIT * UNIT);
        assert!(sum >= UNIT * UNIT - 2 * UNIT);
        angle += 313;
    }
}

#[test]
fn sin_cos_of_the_extreme_angles() {
    let (s, c) = sin_cos(i64::MIN);
    assert!(s.abs() <= UNIT && c.abs() <= UNIT);
    let (s, c) = sin_cos(i64::MAX);
    assert!(s.abs() <= UNIT && c.abs() <= UNIT);
}
