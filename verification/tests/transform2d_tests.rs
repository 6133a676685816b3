use diff_drive::fixed::{HALF_PI, PI, TWO_PI};
use diff_drive::rigid2d::{Transform2D, Twist2D, Vector2D};
use diff_drive::utils::{self, almost_equal};

#[test]
fn transform2d_new() {
    let angle = utils::deg2rad(90_000_000_000);
    let trans = Vector2D::new(1_000_000_000, 2_000_000_000);
    let tf = Transform2D::new(trans, angle);

    let a = tf.rotation();
    let t = tf.translation();

    println!("a = {:?}", a);
    println!("t = {:?}", t);

    assert!(almost_equal(a, HALF_PI, 1_000));
    assert!(almost_equal(t.x, 1_000_000_000, 1_000));
    assert!(almost_equal(t.y, 2_000_000_000, 1_000));
}

#[test]
fn transform2d_mul() {
    let v1 = Vector2D::new(5_000_000_000, 3_000_000_000);
    let v2 = Vector2D::new(2_000_000_000, 7_000_000_000);
    let tf1 = Transform2D::new(v1, 0);
    let tf2 = Transform2D::new(v2, 0);
    let tf3 = tf1.mul(tf2);
    assert!(almost_equal(tf3.rotation(), 0, 100_000));
    assert!(almost_equal(tf3.translation().x, 7_000_000_000, 100_000));
    assert!(almost_equal(tf3.translation().y, 10_000_000_000, 100_000));
}

#[test]
fn transform2d_integrate_twist() {
    // Pure translation
    {
        let v = Twist2D::new(0, 1_000_000_000, 0);
        let tf = Transform2D::new(Vector2D::new(0, 0), 0);
        let tf_new = tf.integrate_twist(v);
        assert!(almost_equal(tf_new.translation().x, 1_000_000_000, 1_000));
        assert!(almost_equal(tf_new.translation().y, 0, 1_000));
        assert!(almost_equal(tf_new.rotation(), 0, 1_000));
    }

    // Pure rotation
    {
        let v = Twist2D::new(PI, 0, 0);
        let tf = Transform2D::new(Vector2D::new(0, 0), 0);
        let tf_new = tf.integrate_twist(v);
        assert!(almost_equal(tf_new.translation().x, 0, 1_000));
        assert!(almost_equal(tf_new.translation().y, 0, 1_000));
        assert!(almost_equal(tf_new.rotation(), PI, 1_000));
    }

    // Rotation and Translation
    {
        let v = Twist2D::new(TWO_PI, PI, PI);
        let tf = Transform2D::new(Vector2D::new(0, 0), 0);
        let tf_new = tf.integrate_twist(v);
        assert!(almost_equal(tf_new.translation().x, 0, 1_000));
        assert!(almost_equal(tf_new.translation().y, 0, 1_000));
        assert!(almost_equal(tf_new.rotation(), TWO_PI, 1_000));
    }
}
