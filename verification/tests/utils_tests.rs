use diff_drive::fixed::TWO_PI;
use diff_drive::rigid2d::Vector2D;
use diff_drive::utils::{
    almost_equal, arange, distance, linspace, rad_per_sec_to_rpm, rpm_to_rad_per_sec,
};

#[test]
fn test_almost_equal() {
    assert!(almost_equal(1_000_000_000, 1_000_000_000, 1_000));
    assert_eq!(almost_equal(1_000_000_000, 1_001_000_000, 1_000), false);
}

#[test]
fn test_distance() {
    let a = Vector2D::new(0, 0);
    let b = Vector2D::new(1_000_000_000, 0);
    let d = distance(a, b);
    assert!(almost_equal(d, 1_000_000_000, 1_000));
}

#[test]
fn test_rpm_to_rad_per_sec() {
    let speed_rpm: i64 = 60_000_000_000;
    let speed_rad_per_sec: i64 = rpm_to_rad_per_sec(speed_rpm);
    assert!(almost_equal(speed_rad_per_sec, TWO_PI, 1_000));
}

#[test]
fn test_rad_per_sec_to_rpm() {
    let speed_rad_per_sec: i64 = TWO_PI;
    let speed_rpm = rad_per_sec_to_rpm(speed_rad_per_sec);
    assert!(almost_equal(speed_rpm, 60_000_000_000, 1_000));
}

#[test]
fn test_linspace() {
    let x = linspace(0, 5_000_000_000, 10);
    println!("linspace (0,5,10): {:?}", x);
}

#[test]
fn test_arange() {
    let x = arange(0, 11_000_000_000, 1_000_000_000);
    println!("arange (0,11,1): {:?}", x);
}
