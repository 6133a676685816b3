use diff_drive::ddrive::{DiffDrive, WheelState};
use diff_drive::fixed::PI;
use diff_drive::rigid2d::Twist2D;
use diff_drive::utils::almost_equal;

// All scalars are fixed-point billionths: 1.57 units is 1_570_000_000 steps,
// and a tolerance of one millionth of a unit is 1_000 steps.

#[test]
fn wheelstate_new() {
    let wheel_angles = WheelState::new(1_570_000_000, 1_570_000_000);
    assert_eq!(wheel_angles.left, 1_570_000_000);
    assert_eq!(wheel_angles.right, 1_570_000_000);
}

#[test]
fn diffdrive_ik() {
    let v = Twist2D::new(1_000_000_000, 1_000_000_000, 0);
    let mut ddrive = DiffDrive::new(1_000_000_000, 2_000_000_000);
    let speeds: WheelState = ddrive.speeds_from_twist(v).unwrap();
    println!("{:?}", speeds);
}

#[test]
fn diffdrive_body_twist() {
    let robot = DiffDrive::new(1_000_000_000, 1_000_000_000);
    let phidot = WheelState::new(1_000_000_000, 1_000_000_000);
    let v = robot.twist_from_speeds(phidot);
    assert!(almost_equal(v.xdot, 1_000_000_000, 1_000));
}

#[test]
fn diffdrive_fk() {
    const R_TEST: i64 = 1_000_000_000;
    const D_TEST: i64 = 1_000_000_000;

    // Robot drives forward
    {
        let mut robot = DiffDrive::new(R_TEST, D_TEST * 2);
        let phi_new = WheelState::new(1_570_000_000, 1_570_000_000);
        let new_pose = robot.forward_kinematics(phi_new);
        assert!(almost_equal(new_pose.x, 1_570_000_000, 1_000));
        assert!(almost_equal(new_pose.y, 0, 1_000));
        assert!(almost_equal(new_pose.theta, 0, 1_000));
    }

    // Robot drives backwards
    {
        let mut robot = DiffDrive::new(R_TEST, D_TEST * 2);
        let phi_new = WheelState::new(-1_570_000_000, -1_570_000_000);
        let new_pose = robot.forward_kinematics(phi_new);
        assert!(almost_equal(new_pose.x, -1_570_000_000, 1_000));
        assert!(almost_equal(new_pose.y, 0, 1_000));
        assert!(almost_equal(new_pose.theta, 0, 1_000));
    }

    // Robot drives forward and turns
    {
        let mut robot = DiffDrive::new(R_TEST, D_TEST * 2);
        let phi_new = WheelState::new(PI, 0);
        let new_pose = robot.forward_kinematics(phi_new);
        assert!(almost_equal(new_pose.x, 1_000_000_000, 1_000));
        assert!(almost_equal(new_pose.y, -1_000_000_000, 1_000));
        assert!(almost_equal(new_pose.theta, -PI / 2, 1_000));
    }

    // Robot spins in place
    {
        let mut robot = DiffDrive::new(R_TEST, D_TEST * 2);
        let phi_new = WheelState::new(-PI, PI);
        let new_pose = robot.forward_kinematics(phi_new);
        assert!(almost_equal(new_pose.x, 0, 1_000));
        assert!(almost_equal(new_pose.y, 0, 1_000));
        assert!(almost_equal(new_pose.theta, PI, 1_000));
    }
}

#[test]
fn fk_test2() {
    println!("\n\n");
    const R_TEST: i64 = 45_000_000;
    const D_TEST: i64 = 103_000_000;

    // wheel angles from 0 to 3.2 units in steps of 0.1
    let step: i64 = 100_000_000;
    let left_angles: Vec<i64> = (0..=32).map(|i| i as i64 * step).collect();
    let right_angles: Vec<i64> = (0..=32).map(|i| i as i64 * step).collect();

    let mut robot = DiffDrive::new(R_TEST, D_TEST);
    let mut wheel_angles = WheelState::new(0, 0);
    for i in 0..left_angles.len() {
        wheel_angles.left = left_angles[i];
        wheel_angles.right = right_angles[i];
        let pose = robot.forward_kinematics(wheel_angles);
        println!("Pose = {:?}", pose);
    }
    println!("\n\n");
}
