use rarc::angle::{angle_within, diff_ccw, diff_cw, is_between_ccw, is_between_cw, normalize_angle};

/// Converts radians to binary angle units for the tests.
fn units(rad: f64) -> i64 {
    (rad / std::f64::consts::TAU * 4294967296.0).round() as i64
}

const PI: f64 = std::f64::consts::PI;

#[test]
fn test_angle_within() {
    assert!(angle_within(units(PI), units(0.0), units(1.99 * PI)));
    assert!(angle_within(units(PI), units(-1.0), units(1.1 * PI)));
    assert!(angle_within(units(0.0), units(-1.0), units(2.0)));
    assert!(angle_within(units(0.0), units(2.0 * PI - 1.0), units(2.0)));
    assert!(angle_within(units(0.0), units(2.0), units(2.0)));
    assert!(angle_within(units(1.0), units(0.0), units(2.0)));
}

#[test]
fn normalize_wraps_into_one_turn() {
    assert_eq!(normalize_angle(0), 0);
    assert_eq!(normalize_angle(-1), 4294967295);
    assert_eq!(normalize_angle(4294967296), 0);
    assert_eq!(normalize_angle(units(PI)), 2147483648);
    assert_eq!(normalize_angle(units(-PI / 2.0)), 3221225472);
}

#[test]
fn cw_and_ccw_distances_sum_to_a_turn() {
    let a = units(1.0);
    let b = units(2.5);
    let cw = diff_cw(a, b);
    let ccw = diff_ccw(a, b);
    assert_eq!(cw + ccw, 4294967296);
    assert_eq!(diff_cw(a, a), 0);
    assert_eq!(diff_ccw(a, a), 0);
}

#[test]
fn between_cw_is_the_complement_of_between_ccw() {
    let angle = units(1.0);
    let from = units(0.5);
    let to = units(2.0);
    assert!(is_between_ccw(angle, from, to));
    assert!(!is_between_cw(angle, from, to));
    assert!(is_between_cw(units(0.25), from, to));
}
