use diff_drive::fixed::HALF_PI;
use diff_drive::rigid2d::Vector2D;
use diff_drive::utils;

#[test]
fn vector2d_from_polar() {
    let v = Vector2D::from_polar(1_000_000_000, utils::deg2rad(90_000_000_000));
    // a quarter turn lands exactly on a quadrant boundary, so the result is
    // exact in fixed point
    assert_eq!(v.x, 0);
    assert_eq!(v.y, 1_000_000_000);
}

#[test]
fn vector2d_dot() {
    let lhs = Vector2D::new(1_000_000_000, 1_000_000_000);
    let rhs = Vector2D::new(2_000_000_000, 2_000_000_000);
    let dot_prod = lhs.dot(&rhs);
    assert_eq!(dot_prod, 4_000_000_000);
}

#[test]
fn vector2d_normalize() {
    let v = Vector2D::new(3_000_000_000, 2_000_000_000);
    let norm = v.normalize();
    assert!(utils::almost_equal(norm.x, 832_050_290, 100_000));
    assert!(utils::almost_equal(norm.y, 554_700_200, 100_000));
}

#[test]
fn vector2d_angle() {
    let v1 = Vector2D::new(1_000_000_000, 0);
    let v2 = Vector2D::new(0, 1_000_000_000);
    let angle = v1.angle(&v2).unwrap();
    assert!(utils::almost_equal(angle, HALF_PI, 1_000));
}

#[test]
fn vector2d_plus_operator() {
    let v1 = Vector2D::new(1_000_000_000, 3_000_000_000);
    let v2 = Vector2D::new(2_000_000_000, 5_000_000_000);
    let sum = v1.add(v2);
    assert_eq!(sum.x, 3_000_000_000);
    assert_eq!(sum.y, 8_000_000_000);
}

#[test]
fn vector2d_distance() {
    let d1 = Vector2D::new(0, 0).distance(Vector2D::new(1_000_000_000, 0));
    let d2 = Vector2D::new(1_000_000_000, 1_000_000_000).distance(Vector2D::new(
        1_000_000_000,
        2_000_000_000,
    ));
    let d3 = Vector2D::new(-1_000_000_000, 1_000_000_000).distance(Vector2D::new(
        0,
        1_000_000_000,
    ));
    assert!(utils::almost_equal(d1, 1_000_000_000, 1));
    assert!(utils::almost_equal(d2, 1_000_000_000, 1));
    assert!(utils::almost_equal(d3, 1_000_000_000, 1));
}
