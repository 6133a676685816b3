use diff_drive::ddrive::{DiffDrive, WheelState};
use diff_drive::fixed::{HALF_PI, PI, SCALE, TWO_PI};
use diff_drive::rigid2d::{KinematicsError, Transform2D, Twist2D, Vector2D};
use diff_drive::trajectory::Path;
use diff_drive::utils::{almost_equal, arange, deg2rad, linspace, normalize_angle, rad2deg};

#[test]
fn distance_is_symmetric_and_zero_on_diagonal() {
    let a = Vector2D::new(3_141_592_654, -2_718_281_828);
    let b = Vector2D::new(-1_414_213_562, 577_215_664);
    assert_eq!(a.distance(b), b.distance(a));
    assert_eq!(a.distance(a), 0);
    assert_eq!(b.distance(b), 0);
}

#[test]
fn normalize_unit_magnitude() {
    let v = Vector2D::new(3_000_000_000, 2_000_000_000);
    let n = v.normalize();
    let mag = n.magnitude();
    assert!(almost_equal(mag, SCALE, 1_000));
}

#[test]
fn normalize_zero_component_quirk() {
    // a zero component, not a zero magnitude, forces the zero vector
    let axis = Vector2D::new(0, 5_000_000_000);
    let n1 = axis.normalize();
    assert_eq!(n1.x, 0);
    assert_eq!(n1.y, 0);
    let other = Vector2D::new(5_000_000_000, 0);
    let n2 = other.normalize();
    assert_eq!(n2.x, 0);
    assert_eq!(n2.y, 0);
}

#[test]
fn angle_of_vector_with_itself_is_near_zero() {
    let v = Vector2D::new(3_000_000_000, 4_000_000_000);
    let a = v.angle(&v).unwrap();
    assert!(almost_equal(a, 0, 100_000));
}

#[test]
fn angle_rejects_zero_magnitude() {
    let z = Vector2D::new(0, 0);
    let v = Vector2D::new(1_000_000_000, 0);
    assert_eq!(v.angle(&z), Err(KinematicsError::ZeroMagnitude));
    assert_eq!(z.angle(&v), Err(KinematicsError::ZeroMagnitude));
}

#[test]
fn composition_associative_within_tolerance() {
    let t1 = Transform2D::new(Vector2D::new(1_000_000_000, 2_000_000_000), 500_000_000);
    let t2 = Transform2D::new(Vector2D::new(-3_000_000_000, 700_000_000), -1_200_000_000);
    let t3 = Transform2D::new(Vector2D::new(250_000_000, -4_000_000_000), 2_500_000_000);
    let left = t1.mul(t2).mul(t3);
    let right = t1.mul(t2.mul(t3));
    assert_eq!(left.rotation(), right.rotation());
    assert!(almost_equal(left.translation().x, right.translation().x, 1_000));
    assert!(almost_equal(left.translation().y, right.translation().y, 1_000));
}

#[test]
fn ik_concrete_speeds() {
    // radius 1, separation 2: the twist (1, 1, 0) needs speeds (0, 2)
    let mut robot = DiffDrive::new(1_000_000_000, 2_000_000_000);
    let v = Twist2D::new(1_000_000_000, 1_000_000_000, 0);
    let speeds = robot.speeds_from_twist(v).unwrap();
    assert_eq!(speeds.left, 0);
    assert_eq!(speeds.right, 2_000_000_000);
}

#[test]
fn ik_rejects_lateral_twist() {
    let mut robot = DiffDrive::new(1_000_000_000, 2_000_000_000);
    let sideways = Twist2D::new(0, 0, 1_000_000_000);
    assert_eq!(
        robot.speeds_from_twist(sideways),
        Err(KinematicsError::NonZeroLateral)
    );
    // the tolerance boundary: one ten-thousandth of a unit is rejected,
    // anything smaller is accepted
    let boundary = Twist2D::new(0, 0, 100_000);
    assert_eq!(
        robot.speeds_from_twist(boundary),
        Err(KinematicsError::NonZeroLateral)
    );
    let inside = Twist2D::new(0, 0, 99_999);
    assert!(robot.speeds_from_twist(inside).is_ok());
}

#[test]
fn ik_fk_round_trip_exact_geometry() {
    // radius 1, separation 2: every step of the round trip is exact
    let mut robot = DiffDrive::new(1_000_000_000, 2_000_000_000);
    let twists = [
        Twist2D::new(1_000_000_000, 1_000_000_000, 0),
        Twist2D::new(-500_000_000, 2_000_000_000, 0),
        Twist2D::new(333_333_333, -777_777_777, 0),
    ];
    for t in twists.iter() {
        let speeds = robot.speeds_from_twist(*t).unwrap();
        let back = robot.twist_from_speeds(speeds);
        assert_eq!(back.thetadot, t.thetadot);
        assert_eq!(back.xdot, t.xdot);
        assert_eq!(back.ydot, 0);
    }
}

#[test]
fn ik_fk_round_trip_general_geometry() {
    // odd dimensions: the round trip agrees within a few rounding steps
    let mut robot = DiffDrive::new(45_000_000, 103_000_000);
    let t = Twist2D::new(700_000_001, -299_999_999, 0);
    let speeds = robot.speeds_from_twist(t).unwrap();
    let back = robot.twist_from_speeds(speeds);
    assert!(almost_equal(back.thetadot, t.thetadot, 5_000));
    assert!(almost_equal(back.xdot, t.xdot, 5_000));
    assert_eq!(back.ydot, 0);
}

#[test]
fn integrate_twist_threshold() {
    let tf = Transform2D::new(Vector2D::new(0, 0), 0);
    // at the threshold the angular rate counts as zero
    let at = tf.integrate_twist(Twist2D::new(10_000, 500_000_000, 0));
    assert_eq!(at.rotation(), 0);
    assert_eq!(at.translation().x, 500_000_000);
    // one step above it the rate is kept
    let above = tf.integrate_twist(Twist2D::new(10_001, 500_000_000, 0));
    assert_eq!(above.rotation(), 10_001);
}

#[test]
fn normalize_angle_wraps_whole_turns() {
    assert_eq!(normalize_angle(3 * PI), PI);
    assert_eq!(normalize_angle(-3 * PI), PI);
    assert_eq!(normalize_angle(TWO_PI + 250_000_000), 250_000_000);
    assert_eq!(normalize_angle(700_000_000), 700_000_000);
}

#[test]
fn normalize_angle_near_negative_pi_quirk() {
    // within one millionth of a unit of minus pi, the result is pi
    assert_eq!(normalize_angle(-PI + 500), PI);
    assert_eq!(normalize_angle(-PI - 500), PI);
    // outside that band, an angle just above minus pi stays put
    assert_eq!(normalize_angle(-PI + 2_000), -PI + 2_000);
}

#[test]
fn deg2rad_rad2deg_round_trip() {
    assert_eq!(deg2rad(90_000_000_000), HALF_PI);
    assert_eq!(rad2deg(HALF_PI), 90_000_000_000);
    assert_eq!(deg2rad(180_000_000_000), PI);
    assert_eq!(rad2deg(PI), 180_000_000_000);
}

#[test]
fn wheelstate_conversions_round_trip() {
    let mut w = WheelState::new(TWO_PI, TWO_PI);
    let rpm = w.convert_to_rpm();
    assert_eq!(rpm.left, 60_000_000_000);
    assert_eq!(rpm.right, 60_000_000_000);
    let mut back = WheelState::new(rpm.left, rpm.right);
    let rad = back.convert_to_rad_per_sec();
    assert_eq!(rad.left, TWO_PI);
    assert_eq!(rad.right, TWO_PI);
}

#[test]
fn linspace_exact_values() {
    let xs = linspace(0, 5_000_000_000, 11);
    assert_eq!(xs.len(), 11);
    for (i, x) in xs.iter().enumerate() {
        assert_eq!(*x, i as i64 * 500_000_000);
    }
    let down = linspace(1_000_000_000, 0, 3);
    assert_eq!(down, vec![1_000_000_000, 500_000_000, 0]);
}

#[test]
fn arange_exact_values() {
    let xs = arange(0, 11_000_000_000, 1_000_000_000);
    assert_eq!(xs.len(), 12);
    for (i, x) in xs.iter().enumerate() {
        assert_eq!(*x, i as i64 * 1_000_000_000);
    }
}

#[test]
fn semi_circle_heights() {
    let path = Path::semi_circle(2_000_000_000, 5);
    let wps = path.to_vec();
    assert_eq!(wps.len(), 5);
    let expected_x = [0, 1_000_000_000, 2_000_000_000, 3_000_000_000, 4_000_000_000];
    let expected_y = [0, 1_732_050_807, 2_000_000_000, 1_732_050_807, 0];
    for i in 0..5 {
        assert_eq!(wps[i].x, expected_x[i]);
        assert!(almost_equal(wps[i].y, expected_y[i], 2));
    }
}

#[test]
fn from_polar_quadrants() {
    let east = Vector2D::from_polar(2_000_000_000, 0);
    assert_eq!(east.x, 2_000_000_000);
    assert_eq!(east.y, 0);
    let west = Vector2D::from_polar(2_000_000_000, PI);
    assert_eq!(west.x, -2_000_000_000);
    assert_eq!(west.y, 0);
    let south = Vector2D::from_polar(2_000_000_000, -HALF_PI);
    assert_eq!(south.x, 0);
    assert_eq!(south.y, -2_000_000_000);
}

#[test]
fn magnitude_of_pythagorean_triple() {
    let v = Vector2D::new(3_000_000_000, 4_000_000_000);
    assert_eq!(v.magnitude(), 5_000_000_000);
}

#[test]
fn fk_sequential_straight_drive() {
    // two equal straight steps accumulate exactly
    let mut robot = DiffDrive::new(1_000_000_000, 2_000_000_000);
    let p1 = robot.forward_kinematics(WheelState::new(1_570_000_000, 1_570_000_000));
    assert_eq!(p1.x, 1_570_000_000);
    assert_eq!(p1.y, 0);
    assert_eq!(p1.theta, 0);
    let p2 = robot.forward_kinematics(WheelState::new(3_140_000_000, 3_140_000_000));
    assert_eq!(p2.x, 3_140_000_000);
    assert_eq!(p2.y, 0);
    assert_eq!(p2.theta, 0);
}

#[test]
fn angle_of_diagonal_is_quarter_turn() {
    let v1 = Vector2D::new(1_000_000_000, 0);
    let v2 = Vector2D::new(1_000_000_000, 1_000_000_000);
    let a = v1.angle(&v2).unwrap();
    assert!(almost_equal(a, 785_398_163, 1_000));
}
