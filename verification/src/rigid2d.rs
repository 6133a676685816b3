//! Two-dimensional rigid body motion: vectors, poses, twists and transforms.
//!
//! Every coordinate is a fixed-point scalar (see [`crate::fixed`]), so each
//! operation has an exact contract over the integer spec functions of that
//! module.

use crate::fixed::{
    cos_spec, floor_div_i128, fx_acos, fx_div, fx_div_spec, fx_hypot, fx_mul, fx_mul_spec,
    fx_sin_cos, in_i64, int_sqrt, is_sqrt_of, lemma_component_le_sqrt, lemma_fx_div_le,
    lemma_fx_mul_le_factor, lemma_int_sqrt_exists, lemma_int_sqrt_is, lemma_trig_anchors,
    sin_spec, PI, SCALE, TWO_PI,
};
use vstd::arithmetic::div_mod::{
    lemma_div_multiples_vanish, lemma_div_of0, lemma_fundamental_div_mod, lemma_mod_bound,
};
use vstd::prelude::*;

verus! {

/// Largest coordinate (translation component or accumulated angle) accepted
/// on the left of a transform composition; machine limit of the fixed-point
/// range.
pub const MAX_COORD: i64 = 2_000_000_000_000_000_000;

/// Largest coordinate of a displacement transform accepted on the right of a
/// composition; every result of twist integration lies within it.
pub const MAX_DISP: i64 = 3_100_000_000_000_000_000;

/// Largest twist component the integrator accepts; machine limit keeping the
/// closed-form exponential map inside the fixed-point range.
pub const MAX_RATE: i64 = 10_000_000_000_000;

/// Angular rates at most this magnitude count as numerically zero when a
/// twist is integrated, so the motion degenerates to a pure translation.
pub const ANGULAR_EPS: i64 = 10_000;

/// The failure cases of the kinematics operations.
#[derive(Clone, Copy, Debug, PartialEq, Eq, Structural)]
pub enum KinematicsError {
    /// A direction-dependent operation received a vector of zero magnitude.
    ZeroMagnitude,
    /// A twist with a lateral velocity component was commanded to a drive
    /// that cannot move sideways.
    NonZeroLateral,
}

/// A two-dimensional vector of fixed-point coordinates.
#[derive(Clone, Copy, Debug, PartialEq, Eq, Structural)]
pub struct Vector2D {
    /// x coordinate
    pub x: i64,
    /// y coordinate
    pub y: i64,
}

/// The squared Euclidean norm of a vector, as a mathematical integer.
pub open spec fn norm_sq(v: Vector2D) -> int {
    (v.x as int) * (v.x as int) + (v.y as int) * (v.y as int)
}

/// The squared Euclidean distance between two vectors taken as points.
pub open spec fn dist_sq(a: Vector2D, b: Vector2D) -> int {
    (b.x - a.x) * (b.x - a.x) + (b.y - a.y) * (b.y - a.y)
}

/// The fixed-point dot product of two vectors.
pub open spec fn dot_spec(a: Vector2D, b: Vector2D) -> int {
    fx_mul_spec(a.x as int, b.x as int) + fx_mul_spec(a.y as int, b.y as int)
}

/// The raw cosine ratio of the angle between two vectors: the dot product
/// over the product of the magnitudes, as a fixed-point scalar.
pub open spec fn angle_ratio_raw(a: Vector2D, b: Vector2D) -> int {
    (dot_spec(a, b) * (SCALE as int) * (SCALE as int)) / (int_sqrt(norm_sq(a)) * int_sqrt(
        norm_sq(b),
    ))
}

/// The cosine ratio of the angle between two vectors, clamped to one whole
/// unit of either sign, so that rounding cannot push it outside the domain
/// of the inverse cosine.
pub open spec fn angle_ratio_spec(a: Vector2D, b: Vector2D) -> int {
    let q = angle_ratio_raw(a, b);
    if q > SCALE {
        SCALE as int
    } else if q < -SCALE {
        -(SCALE as int)
    } else {
        q
    }
}

/// The integer square root of a squared norm is zero exactly when the norm
/// itself is zero.
pub proof fn lemma_norm_zero_iff(v: Vector2D, m: int)
    requires
        is_sqrt_of(norm_sq(v), m),
    ensures
        (m == 0) <==> (norm_sq(v) == 0),
        norm_sq(v) >= 0,
{
    assert(norm_sq(v) >= 0) by (nonlinear_arith);
    if m == 0 {
        assert((m + 1) * (m + 1) == 1) by (nonlinear_arith)
            requires
                m == 0,
        ;
    }
    if norm_sq(v) == 0 {
        assert(m == 0) by (nonlinear_arith)
            requires
                0 <= m,
                m * m <= 0,
        ;
    }
}

/// Whether the squared norm stays in the range on which the fixed-point
/// square root is available.
pub open spec fn norm_in_range(v: Vector2D) -> bool {
    norm_sq(v) <= (i64::MAX as int) * (i64::MAX as int)
}

/// The x component of a normalized vector whose components are both
/// nonzero: the coordinate divided by the magnitude, in fixed point.
pub open spec fn normalize_x_spec(v: Vector2D) -> int {
    fx_div_spec(v.x as int, int_sqrt(norm_sq(v)))
}

/// The y component of a normalized vector whose components are both
/// nonzero.
pub open spec fn normalize_y_spec(v: Vector2D) -> int {
    fx_div_spec(v.y as int, int_sqrt(norm_sq(v)))
}

impl Vector2D {
    /// Constructs a vector from its coordinates; no validation.
    pub fn new(x: i64, y: i64) -> (r: Vector2D)
        ensures
            r.x == x,
            r.y == y,
    {
        Vector2D { x, y }
    }

    /// Constructs the vector of polar coordinates `(radius, phi)`:
    /// `(radius * cos(phi), radius * sin(phi))` in fixed point.
    pub fn from_polar(radius: i64, phi: i64) -> (r: Vector2D)
        requires
            i64::MIN < radius,
            i64::MIN < phi,
        ensures
            r.x as int == fx_mul_spec(radius as int, cos_spec(phi as int)),
            r.y as int == fx_mul_spec(radius as int, sin_spec(phi as int)),
    {
        let sc: (i64, i64) = fx_sin_cos(phi);
        proof {
            lemma_fx_mul_le_factor(radius as int, sc.1 as int, 1);
            lemma_fx_mul_le_factor(radius as int, sc.0 as int, 1);
        }
        Vector2D { x: fx_mul(radius, sc.1), y: fx_mul(radius, sc.0) }
    }

    /// The Euclidean norm, rounded down to a whole fixed-point step.
    pub fn magnitude(&self) -> (r: i64)
        requires
            norm_in_range(*self),
        ensures
            r as int == int_sqrt(norm_sq(*self)),
            is_sqrt_of(norm_sq(*self), r as int),
            0 <= r,
    {
        fx_hypot(self.x, self.y)
    }

    /// The fixed-point dot product with another vector.
    pub fn dot(&self, rhs: &Vector2D) -> (r: i64)
        requires
            in_i64(fx_mul_spec(self.x as int, rhs.x as int)),
            in_i64(fx_mul_spec(self.y as int, rhs.y as int)),
            in_i64(dot_spec(*self, *rhs)),
        ensures
            r as int == dot_spec(*self, *rhs),
    {
        fx_mul(self.x, rhs.x) + fx_mul(self.y, rhs.y)
    }

    /// The angle between this vector and another, in `[0, PI]`: the inverse
    /// cosine of the dot product over the product of the magnitudes. A zero
    /// magnitude on either side is rejected instead of propagating an
    /// undefined ratio, and a ratio pushed outside `[-1, 1]` by rounding is
    /// clamped before the inverse cosine.
    pub fn angle(&self, rhs: &Vector2D) -> (r: Result<i64, KinematicsError>)
        requires
            norm_in_range(*self),
            norm_in_range(*rhs),
            in_i64(fx_mul_spec(self.x as int, rhs.x as int)),
            in_i64(fx_mul_spec(self.y as int, rhs.y as int)),
            in_i64(dot_spec(*self, *rhs)),
        ensures
            (r is Err) <==> (norm_sq(*self) == 0 || norm_sq(*rhs) == 0),
            r is Err ==> r == Err::<i64, KinematicsError>(KinematicsError::ZeroMagnitude),
            r is Ok ==> 0 <= r->Ok_0 < PI,
            r is Ok ==> cos_spec(r->Ok_0 as int) >= angle_ratio_spec(*self, *rhs),
            r is Ok ==> cos_spec(r->Ok_0 as int + 1) <= angle_ratio_spec(*self, *rhs),
    {
        let m1: i64 = self.magnitude();
        let m2: i64 = rhs.magnitude();
        proof {
            lemma_norm_zero_iff(*self, m1 as int);
            lemma_norm_zero_iff(*rhs, m2 as int);
        }
        if m1 == 0 || m2 == 0 {
            return Err(KinematicsError::ZeroMagnitude);
        }
        let d: i64 = self.dot(rhs);
        proof {
            assert((d as int) * 1_000_000_000 * 1_000_000_000 <= 0x7FFF_FFFF_FFFF_FFFF
                * 1_000_000_000 * 1_000_000_000 && (d as int) * 1_000_000_000 * 1_000_000_000
                >= -0x8000_0000_0000_0000 * 1_000_000_000 * 1_000_000_000) by (nonlinear_arith)
                requires
                    -0x8000_0000_0000_0000 <= d as int <= 0x7FFF_FFFF_FFFF_FFFF,
            ;
            assert(1 <= (m1 as int) * (m2 as int) <= 0x7FFF_FFFF_FFFF_FFFF
                * 0x7FFF_FFFF_FFFF_FFFF) by (nonlinear_arith)
                requires
                    1 <= m1 as int <= 0x7FFF_FFFF_FFFF_FFFF,
                    1 <= m2 as int <= 0x7FFF_FFFF_FFFF_FFFF,
            ;
        }
        let num: i128 = (d as i128) * 1_000_000_000 * 1_000_000_000;
        let den: i128 = (m1 as i128) * (m2 as i128);
        let q: i128 = floor_div_i128(num, den);
        let c: i64 = if q > 1_000_000_000 {
            SCALE
        } else if q < -1_000_000_000 {
            -SCALE
        } else {
            q as i64
        };
        Ok(fx_acos(c))
    }

    /// Scales the vector to unit magnitude, unless either component is
    /// exactly zero, in which case the zero vector is returned. The zero
    /// test is deliberately per component, not on the magnitude, so a vector
    /// on an axis also normalizes to zero.
    pub fn normalize(&self) -> (r: Vector2D)
        requires
            norm_in_range(*self),
        ensures
            (self.x == 0 || self.y == 0) ==> (r.x == 0 && r.y == 0),
            (self.x != 0 && self.y != 0) ==> r.x as int == normalize_x_spec(*self),
            (self.x != 0 && self.y != 0) ==> r.y as int == normalize_y_spec(*self),
    {
        if self.x == 0 || self.y == 0 {
            Vector2D { x: 0, y: 0 }
        } else {
            let mag: i64 = self.magnitude();
            proof {
                assert(1 <= (self.x as int) * (self.x as int) && 0 <= (self.y as int) * (
                self.y as int)) by (nonlinear_arith)
                    requires
                        self.x as int != 0,
                ;
                if mag == 0 {
                    assert((mag as int + 1) * (mag as int + 1) == 1) by (nonlinear_arith)
                        requires
                            mag as int == 0,
                    ;
                    assert(false);
                }
                lemma_component_le_sqrt(self.x as int, norm_sq(*self), mag as int);
                lemma_component_le_sqrt(self.y as int, norm_sq(*self), mag as int);
                lemma_div_multiples_vanish(SCALE as int, mag as int);
                lemma_fx_div_le(self.x as int, mag as int, mag as int, mag as int, i64::MAX as int);
                lemma_fx_div_le(self.y as int, mag as int, mag as int, mag as int, i64::MAX as int);
            }
            Vector2D { x: fx_div(self.x, mag), y: fx_div(self.y, mag) }
        }
    }

    /// The Euclidean distance to another vector taken as a point, rounded
    /// down to a whole fixed-point step.
    pub fn distance(self, other: Vector2D) -> (r: i64)
        requires
            in_i64(other.x - self.x),
            in_i64(other.y - self.y),
            dist_sq(self, other) <= (i64::MAX as int) * (i64::MAX as int),
        ensures
            r as int == int_sqrt(dist_sq(self, other)),
            is_sqrt_of(dist_sq(self, other), r as int),
            0 <= r,
    {
        fx_hypot(other.x - self.x, other.y - self.y)
    }

    /// Componentwise vector addition.
    pub fn add(self, rhs: Vector2D) -> (r: Vector2D)
        requires
            in_i64(self.x + rhs.x),
            in_i64(self.y + rhs.y),
        ensures
            r.x as int == self.x + rhs.x,
            r.y as int == self.y + rhs.y,
    {
        Vector2D { x: self.x + rhs.x, y: self.y + rhs.y }
    }
}

/// A position and heading in the world frame.
#[derive(Clone, Copy, Debug, PartialEq, Eq, Structural)]
pub struct Pose2D {
    /// x position
    pub x: i64,
    /// y position
    pub y: i64,
    /// heading in fixed-point radians
    pub theta: i64,
}

impl Pose2D {
    /// Constructs a pose from position and heading; no validation.
    pub fn new(x: i64, y: i64, theta: i64) -> (r: Pose2D)
        ensures
            r.x == x,
            r.y == y,
            r.theta == theta,
    {
        Pose2D { x, y, theta }
    }
}

impl Default for Pose2D {
    /// The origin pose with zero heading.
    fn default() -> (r: Pose2D)
        ensures
            r.x == 0,
            r.y == 0,
            r.theta == 0,
    {
        Pose2D { x: 0, y: 0, theta: 0 }
    }
}

/// An instantaneous body-frame velocity: angular rate and linear rates.
#[derive(Clone, Copy, Debug, PartialEq, Eq, Structural)]
pub struct Twist2D {
    /// angular velocity
    pub thetadot: i64,
    /// x velocity
    pub xdot: i64,
    /// y velocity
    pub ydot: i64,
}

impl Twist2D {
    /// Constructs a twist from its three rates; no validation.
    pub fn new(thetadot: i64, xdot: i64, ydot: i64) -> (r: Twist2D)
        ensures
            r.thetadot == thetadot,
            r.xdot == xdot,
            r.ydot == ydot,
    {
        Twist2D { thetadot, xdot, ydot }
    }
}

/// A planar rigid transform: rotate by `angle`, then translate by `p_vec`.
#[derive(Clone, Copy, Debug, PartialEq, Eq, Structural)]
pub struct Transform2D {
    /// translational component of the transform
    pub p_vec: Vector2D,
    /// rotational component of the transform, in fixed-point radians; not
    /// normalized to any range, so composition accumulates without wrapping
    pub angle: i64,
}

/// Rotation of the composition `t1 * t2`: the angles add.
pub open spec fn compose_rot_spec(t1: Transform2D, t2: Transform2D) -> int {
    t1.angle + t2.angle
}

/// Translation x component of the composition `t1 * t2`: the translation of
/// `t2` rotated by the angle of `t1`, then shifted by the translation of
/// `t1`.
pub open spec fn compose_x_spec(t1: Transform2D, t2: Transform2D) -> int {
    t1.p_vec.x + fx_mul_spec(t2.p_vec.x as int, cos_spec(t1.angle as int)) - fx_mul_spec(
        t2.p_vec.y as int,
        sin_spec(t1.angle as int),
    )
}

/// Translation y component of the composition `t1 * t2`.
pub open spec fn compose_y_spec(t1: Transform2D, t2: Transform2D) -> int {
    t1.p_vec.y + fx_mul_spec(t2.p_vec.x as int, sin_spec(t1.angle as int)) + fx_mul_spec(
        t2.p_vec.y as int,
        cos_spec(t1.angle as int),
    )
}

/// Whether every coordinate of a transform lies in the range accepted on
/// the left of a composition.
pub open spec fn transform_in_range(t: Transform2D) -> bool {
    &&& -MAX_COORD <= t.p_vec.x <= MAX_COORD
    &&& -MAX_COORD <= t.p_vec.y <= MAX_COORD
    &&& -MAX_COORD <= t.angle <= MAX_COORD
}

/// Whether every coordinate of a transform lies in the wider range accepted
/// on the right of a composition.
pub open spec fn transform_disp_range(t: Transform2D) -> bool {
    &&& -MAX_DISP <= t.p_vec.x <= MAX_DISP
    &&& -MAX_DISP <= t.p_vec.y <= MAX_DISP
    &&& -MAX_DISP <= t.angle <= MAX_DISP
}

/// Whether a pose can serve as the left operand of a composition.
pub open spec fn pose_in_range(p: Pose2D) -> bool {
    &&& -MAX_COORD <= p.x <= MAX_COORD
    &&& -MAX_COORD <= p.y <= MAX_COORD
    &&& -MAX_COORD <= p.theta <= MAX_COORD
}

/// Whether every component of a twist lies in the integrator's range.
pub open spec fn twist_in_range(v: Twist2D) -> bool {
    &&& -MAX_RATE <= v.thetadot <= MAX_RATE
    &&& -MAX_RATE <= v.xdot <= MAX_RATE
    &&& -MAX_RATE <= v.ydot <= MAX_RATE
}

/// Whether an angular rate counts as numerically zero for integration.
pub open spec fn rate_is_zero(td: int) -> bool {
    -ANGULAR_EPS <= td <= ANGULAR_EPS
}

/// Rotation reached by following the twist `(td, xd, yd)` for one unit of
/// time: the angular rate itself, or zero when the rate is numerically zero.
pub open spec fn integrate_rot_of(td: int) -> int {
    if rate_is_zero(td) {
        0
    } else {
        td
    }
}

/// Translation x component reached by following the twist `(td, xd, yd)` for
/// one unit of time: the closed-form exponential map of SE(2) in fixed
/// point.
pub open spec fn integrate_tx_of(td: int, xd: int, yd: int) -> int {
    if rate_is_zero(td) {
        xd
    } else {
        fx_div_spec(
            fx_mul_spec(xd, sin_spec(td)) + fx_mul_spec(yd, cos_spec(td) - SCALE),
            td,
        )
    }
}

/// Translation y component reached by following the twist `(td, xd, yd)` for
/// one unit of time.
pub open spec fn integrate_ty_of(td: int, xd: int, yd: int) -> int {
    if rate_is_zero(td) {
        yd
    } else {
        fx_div_spec(
            fx_mul_spec(xd, SCALE - cos_spec(td)) + fx_mul_spec(yd, sin_spec(td)),
            td,
        )
    }
}

/// Rotation reached by integrating a twist value.
pub open spec fn integrate_rot_spec(v: Twist2D) -> int {
    integrate_rot_of(v.thetadot as int)
}

/// Translation x component reached by integrating a twist value.
pub open spec fn integrate_tx_spec(v: Twist2D) -> int {
    integrate_tx_of(v.thetadot as int, v.xdot as int, v.ydot as int)
}

/// Translation y component reached by integrating a twist value.
pub open spec fn integrate_ty_spec(v: Twist2D) -> int {
    integrate_ty_of(v.thetadot as int, v.xdot as int, v.ydot as int)
}

impl Transform2D {
    /// Constructs a transform from a translation and a rotation.
    pub fn new(p_vec: Vector2D, angle: i64) -> (r: Transform2D)
        ensures
            r.p_vec == p_vec,
            r.angle == angle,
    {
        Transform2D { p_vec, angle }
    }

    /// The rotational component of the transform.
    pub fn rotation(&self) -> (r: i64)
        ensures
            r == self.angle,
    {
        self.angle
    }

    /// The translational component of the transform.
    pub fn translation(&self) -> (r: Vector2D)
        ensures
            r == self.p_vec,
    {
        self.p_vec
    }

    /// SE(2) group composition: rotations add, and the right translation is
    /// rotated into the left frame before the translations add. Composition
    /// is associative but not commutative.
    pub fn mul(self, rhs: Transform2D) -> (r: Transform2D)
        requires
            transform_in_range(self),
            transform_disp_range(rhs),
        ensures
            r.angle as int == compose_rot_spec(self, rhs),
            r.p_vec.x as int == compose_x_spec(self, rhs),
            r.p_vec.y as int == compose_y_spec(self, rhs),
    {
        let sc: (i64, i64) = fx_sin_cos(self.angle);
        proof {
            lemma_fx_mul_le_factor(rhs.p_vec.x as int, sc.1 as int, 1);
            lemma_fx_mul_le_factor(rhs.p_vec.y as int, sc.0 as int, 1);
            lemma_fx_mul_le_factor(rhs.p_vec.x as int, sc.0 as int, 1);
            lemma_fx_mul_le_factor(rhs.p_vec.y as int, sc.1 as int, 1);
        }
        let px: i64 = self.p_vec.x + fx_mul(rhs.p_vec.x, sc.1) - fx_mul(rhs.p_vec.y, sc.0);
        let py: i64 = self.p_vec.y + fx_mul(rhs.p_vec.x, sc.0) + fx_mul(rhs.p_vec.y, sc.1);
        Transform2D { p_vec: Vector2D { x: px, y: py }, angle: self.angle + rhs.angle }
    }

    /// Integrates a body twist over one unit of time: the closed-form SE(2)
    /// exponential map. An angular rate that is numerically zero gives a
    /// pure translation; otherwise the motion is a rotation about an
    /// instantaneous center. The result is the displacement in the body's
    /// own frame, independent of `self`.
    pub fn integrate_twist(&self, v: Twist2D) -> (t: Transform2D)
        requires
            twist_in_range(v),
        ensures
            t.angle as int == integrate_rot_spec(v),
            t.p_vec.x as int == integrate_tx_spec(v),
            t.p_vec.y as int == integrate_ty_spec(v),
            transform_disp_range(t),
    {
        if -ANGULAR_EPS <= v.thetadot && v.thetadot <= ANGULAR_EPS {
            Transform2D { p_vec: Vector2D { x: v.xdot, y: v.ydot }, angle: 0 }
        } else {
            let sc: (i64, i64) = fx_sin_cos(v.thetadot);
            proof {
                lemma_fx_mul_le_factor(v.xdot as int, sc.0 as int, 1);
                lemma_fx_mul_le_factor(v.ydot as int, sc.1 as int - SCALE as int, 2);
                lemma_fx_mul_le_factor(v.xdot as int, SCALE as int - sc.1 as int, 2);
                lemma_fx_mul_le_factor(v.ydot as int, sc.0 as int, 1);
            }
            let nx: i64 = fx_mul(v.xdot, sc.0) + fx_mul(v.ydot, sc.1 - SCALE);
            let ny: i64 = fx_mul(v.xdot, SCALE - sc.1) + fx_mul(v.ydot, sc.0);
            proof {
                lemma_fx_div_le(
                    nx as int,
                    v.thetadot as int,
                    3 * MAX_RATE as int,
                    ANGULAR_EPS as int + 1,
                    MAX_DISP as int,
                );
                lemma_fx_div_le(
                    ny as int,
                    v.thetadot as int,
                    3 * MAX_RATE as int,
                    ANGULAR_EPS as int + 1,
                    MAX_DISP as int,
                );
            }
            let tx: i64 = fx_div(nx, v.thetadot);
            let ty: i64 = fx_div(ny, v.thetadot);
            Transform2D { p_vec: Vector2D { x: tx, y: ty }, angle: v.thetadot }
        }
    }
}

/// A vector whose components are both nonzero and whose magnitude is at
/// least two thousandths of a unit normalizes to a vector whose magnitude is
/// within one millionth of a unit of one. Below that size the fixed-point
/// quotients are too coarse for the bound to hold.
pub proof fn lemma_normalize_unit_magnitude(v: Vector2D)
    requires
        v.x != 0,
        v.y != 0,
        norm_in_range(v),
        int_sqrt(norm_sq(v)) >= 2_000_000,
    ensures
        (SCALE - 1_000) * (SCALE - 1_000) < normalize_x_spec(v) * normalize_x_spec(v)
            + normalize_y_spec(v) * normalize_y_spec(v),
        normalize_x_spec(v) * normalize_x_spec(v) + normalize_y_spec(v) * normalize_y_spec(v)
            < (SCALE + 1_000) * (SCALE + 1_000),
        SCALE - 1_000 <= int_sqrt(
            normalize_x_spec(v) * normalize_x_spec(v) + normalize_y_spec(v) * normalize_y_spec(v),
        ) < SCALE + 1_000,
{
    let x = v.x as int;
    let y = v.y as int;
    let n = norm_sq(v);
    assert(0 <= x * x && 0 <= y * y) by (nonlinear_arith);
    lemma_int_sqrt_exists(n);
    let m = int_sqrt(n);
    lemma_component_le_sqrt(x, n, m);
    lemma_component_le_sqrt(y, n, m);
    let nx = normalize_x_spec(v);
    let ny = normalize_y_spec(v);
    assert(nx == (x * (SCALE as int)) / m);
    assert(ny == (y * (SCALE as int)) / m);
    lemma_fundamental_div_mod(x * (SCALE as int), m);
    lemma_mod_bound(x * (SCALE as int), m);
    lemma_fundamental_div_mod(y * (SCALE as int), m);
    lemma_mod_bound(y * (SCALE as int), m);
    let r1 = (x * (SCALE as int)) % m;
    let r2 = (y * (SCALE as int)) % m;
    // scaled by m^2, the squared norm of the normalized vector differs from
    // n * SCALE^2 only by the division remainders
    assert(m * m * (nx * nx + ny * ny) == (m * nx) * (m * nx) + (m * ny) * (m * ny))
        by (nonlinear_arith);
    assert((m * nx) * (m * nx) <= (x * 1_000_000_000) * (x * 1_000_000_000) + 2_000_000_000 * (m
        * m) + m * m) by (nonlinear_arith)
        requires
            m * nx == x * 1_000_000_000 - r1,
            0 <= r1 < m,
            -m <= x <= m,
            1 <= m,
    ;
    assert((m * nx) * (m * nx) >= (x * 1_000_000_000) * (x * 1_000_000_000) - 2_000_000_000 * (m
        * m)) by (nonlinear_arith)
        requires
            m * nx == x * 1_000_000_000 - r1,
            0 <= r1 < m,
            -m <= x <= m,
            1 <= m,
    ;
    assert((m * ny) * (m * ny) <= (y * 1_000_000_000) * (y * 1_000_000_000) + 2_000_000_000 * (m
        * m) + m * m) by (nonlinear_arith)
        requires
            m * ny == y * 1_000_000_000 - r2,
            0 <= r2 < m,
            -m <= y <= m,
            1 <= m,
    ;
    assert((m * ny) * (m * ny) >= (y * 1_000_000_000) * (y * 1_000_000_000) - 2_000_000_000 * (m
        * m)) by (nonlinear_arith)
        requires
            m * ny == y * 1_000_000_000 - r2,
            0 <= r2 < m,
            -m <= y <= m,
            1 <= m,
    ;
    assert((x * 1_000_000_000) * (x * 1_000_000_000) + (y * 1_000_000_000) * (y * 1_000_000_000)
        == 1_000_000_000_000_000_000 * (x * x + y * y)) by (nonlinear_arith);
    assert(1_000_000_000_000_000_000 * (x * x + y * y) >= 1_000_000_000_000_000_000 * (m * m))
        by (nonlinear_arith)
        requires
            m * m <= x * x + y * y,
    ;
    assert(1_000_000_000_000_000_000 * (x * x + y * y) <= 1_000_000_000_000_000_000 * ((m + 1) * (
    m + 1) - 1)) by (nonlinear_arith)
        requires
            x * x + y * y < (m + 1) * (m + 1),
    ;
    // divide the bracket by m^2
    assert(nx * nx + ny * ny > 999_998_000_001_000_000) by (nonlinear_arith)
        requires
            1 <= m,
            m * m * (nx * nx + ny * ny) >= 1_000_000_000_000_000_000 * (m * m) - 4_000_000_000 * (
            m * m) - 1,
    ;
    assert(1_000_000_000_000_000_000 * ((m + 1) * (m + 1) - 1) + 4_000_000_000 * (m * m) + 2 * (m
        * m) < 1_000_002_000_001_000_000 * (m * m)) by (nonlinear_arith)
        requires
            2_000_000 <= m,
    ;
    assert(nx * nx + ny * ny < 1_000_002_000_001_000_000) by (nonlinear_arith)
        requires
            1 <= m,
            m * m * (nx * nx + ny * ny) < 1_000_002_000_001_000_000 * (m * m),
    ;
    assert((SCALE - 1_000) * (SCALE - 1_000) == 999_998_000_001_000_000int);
    assert((SCALE + 1_000) * (SCALE + 1_000) == 1_000_002_000_001_000_000int);
    assert(0 <= nx * nx + ny * ny) by (nonlinear_arith);
    lemma_int_sqrt_exists(nx * nx + ny * ny);
    let k = int_sqrt(nx * nx + ny * ny);
    assert(SCALE - 1_000 <= k) by (nonlinear_arith)
        requires
            0 <= k,
            999_998_000_001_000_000 < nx * nx + ny * ny,
            nx * nx + ny * ny < (k + 1) * (k + 1),
    ;
    assert(k < SCALE + 1_000) by (nonlinear_arith)
        requires
            0 <= k,
            k * k <= nx * nx + ny * ny,
            nx * nx + ny * ny < 1_000_002_000_001_000_000,
    ;
}

/// The distance between two points does not depend on their order, and the
/// distance from a point to itself is zero.
pub proof fn lemma_distance_symmetric(a: Vector2D, b: Vector2D)
    ensures
        int_sqrt(dist_sq(a, b)) == int_sqrt(dist_sq(b, a)),
        int_sqrt(dist_sq(a, a)) == 0,
{
    assert(dist_sq(a, b) == dist_sq(b, a)) by (nonlinear_arith);
    assert(dist_sq(a, a) == 0) by (nonlinear_arith);
    assert(is_sqrt_of(0, 0)) by (nonlinear_arith);
    lemma_int_sqrt_is(0, 0);
}

/// Transform composition is associative in its rotation component: for any
/// materialized intermediate compositions, both groupings accumulate the
/// same angle. The translation components agree only up to fixed-point
/// rounding and are not related here.
pub proof fn lemma_compose_rotation_associative(
    t1: Transform2D,
    t2: Transform2D,
    t3: Transform2D,
    t12: Transform2D,
    t23: Transform2D,
)
    requires
        t12.angle as int == compose_rot_spec(t1, t2),
        t23.angle as int == compose_rot_spec(t2, t3),
    ensures
        compose_rot_spec(t12, t3) == compose_rot_spec(t1, t23),
{
}

/// Integrating a pure translation twist `(0, xd, 0)` yields exactly that
/// translation and no rotation.
pub proof fn lemma_integrate_pure_translation(xd: int)
    ensures
        integrate_rot_of(0) == 0,
        integrate_tx_of(0, xd, 0) == xd,
        integrate_ty_of(0, xd, 0) == 0,
{
}

/// Integrating a pure rotation twist `(td, 0, 0)` whose rate is not
/// numerically zero yields exactly that rotation and zero net translation.
pub proof fn lemma_integrate_pure_rotation(td: int)
    requires
        !rate_is_zero(td),
    ensures
        integrate_rot_of(td) == td,
        integrate_tx_of(td, 0, 0) == 0,
        integrate_ty_of(td, 0, 0) == 0,
{
    assert(0 * sin_spec(td) == 0) by (nonlinear_arith);
    assert(0 * (cos_spec(td) - SCALE) == 0) by (nonlinear_arith);
    assert(0 * (SCALE - cos_spec(td)) == 0) by (nonlinear_arith);
    assert(fx_mul_spec(0, sin_spec(td)) == 0) by {
        lemma_div_of0(SCALE as int);
    }
    assert(fx_mul_spec(0, cos_spec(td) - SCALE) == 0) by {
        lemma_div_of0(SCALE as int);
    }
    assert(fx_mul_spec(0, SCALE - cos_spec(td)) == 0) by {
        lemma_div_of0(SCALE as int);
    }
    if td < 0 {
        lemma_div_of0(-(td as int));
    } else {
        lemma_div_of0(td as int);
    }
    assert(fx_div_spec(0, td) == 0);
}

/// Integrating a full-turn twist `(TWO_PI, xd, yd)` yields a whole
/// revolution and zero net translation, whatever the linear rates: the sine
/// of a full turn is exactly zero and its cosine exactly one.
pub proof fn lemma_integrate_full_turn(xd: int, yd: int)
    ensures
        integrate_rot_of(TWO_PI as int) == TWO_PI as int,
        integrate_tx_of(TWO_PI as int, xd, yd) == 0,
        integrate_ty_of(TWO_PI as int, xd, yd) == 0,
{
    lemma_trig_anchors();
    assert(xd * sin_spec(TWO_PI as int) == 0) by (nonlinear_arith)
        requires
            sin_spec(TWO_PI as int) == 0,
    ;
    assert(yd * (cos_spec(TWO_PI as int) - SCALE) == 0) by (nonlinear_arith)
        requires
            cos_spec(TWO_PI as int) == SCALE as int,
    ;
    assert(xd * (SCALE - cos_spec(TWO_PI as int)) == 0) by (nonlinear_arith)
        requires
            cos_spec(TWO_PI as int) == SCALE as int,
    ;
    assert(yd * sin_spec(TWO_PI as int) == 0) by (nonlinear_arith)
        requires
            sin_spec(TWO_PI as int) == 0,
    ;
    lemma_div_of0(SCALE as int);
    lemma_div_of0(TWO_PI as int);
    assert(fx_div_spec(0, TWO_PI as int) == 0);
}

} // verus!
