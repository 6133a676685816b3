use diff_drive::rigid2d::Pose2D;

#[test]
fn pose2d_new() {
    let p = Pose2D::new(2_000_000_000, 3_000_000_000, 90_000_000_000);
    assert_eq!(p.x, 2_000_000_000);
    assert_eq!(p.y, 3_000_000_000);
    assert_eq!(p.theta, 90_000_000_000);
}
