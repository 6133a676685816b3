//! Differential-drive kinematics: wheel state, inverse kinematics from a
//! commanded body twist, and odometric forward kinematics that integrates
//! wheel-angle increments into the world-frame pose.

use crate::fixed::{
    cos_spec, div_floor_i64, fx_div, fx_div_spec, fx_mul, fx_mul_spec, in_i64, lemma_fx_div_le,
    lemma_fx_mul_le_factor, sin_spec, SCALE, TWO_PI,
};
use crate::rigid2d::{
    integrate_rot_of, integrate_tx_of, integrate_ty_of, pose_in_range, twist_in_range,
    KinematicsError, Pose2D, Transform2D, Twist2D, Vector2D, MAX_RATE,
};
use crate::utils::{
    rad_per_sec_to_rpm, rad_per_sec_to_rpm_spec, rpm_to_rad_per_sec, rpm_to_rad_per_sec_spec,
};
use vstd::arithmetic::div_mod::{
    lemma_div_is_ordered_by_denominator, lemma_div_multiples_vanish, lemma_fundamental_div_mod,
    lemma_mod_bound,
};
use vstd::math::abs;
use vstd::prelude::*;

verus! {

/// Lateral twist components of at least this magnitude are rejected by
/// inverse kinematics; smaller ones count as numerically zero.
pub const LATERAL_EPS: i64 = 100_000;

/// Smallest wheel radius or wheel separation the model accepts.
pub const MIN_DIM: i64 = 1_000_000;

/// Largest wheel radius or wheel separation the model accepts.
pub const MAX_DIM: i64 = 1_000_000_000_000;

/// Paired state of the left and right wheels: wheel angles, angular
/// velocities or, after conversion, revolutions per minute. No unit tag is
/// carried; the caller tracks which unit an instance holds.
#[derive(Clone, Copy, Debug, PartialEq, Eq, Structural)]
pub struct WheelState {
    /// State of the left wheel
    pub left: i64,
    /// State of the right wheel
    pub right: i64,
}

/// Whether both wheel components lie in the kinematic range.
pub open spec fn wheel_in_range(w: WheelState) -> bool {
    &&& -MAX_RATE <= w.left <= MAX_RATE
    &&& -MAX_RATE <= w.right <= MAX_RATE
}

impl WheelState {
    /// Constructs a wheel state from the two wheel values; no validation.
    pub fn new(left: i64, right: i64) -> (r: WheelState)
        ensures
            r.left == left,
            r.right == right,
    {
        WheelState { left, right }
    }

    /// Converts both wheel rates from radians per second to revolutions per
    /// minute, stores the converted pair and also returns it.
    pub fn convert_to_rpm(&mut self) -> (r: WheelState)
        requires
            -(i64::MAX as int) <= fx_mul_spec(old(self).left as int, 60 * (SCALE as int))
                <= i64::MAX as int,
            -(i64::MAX as int) <= fx_mul_spec(old(self).right as int, 60 * (SCALE as int))
                <= i64::MAX as int,
        ensures
            final(self).left as int == rad_per_sec_to_rpm_spec(old(self).left as int),
            final(self).right as int == rad_per_sec_to_rpm_spec(old(self).right as int),
            r == *final(self),
    {
        self.left = rad_per_sec_to_rpm(self.left);
        self.right = rad_per_sec_to_rpm(self.right);
        WheelState { left: self.left, right: self.right }
    }

    /// Converts both wheel rates from revolutions per minute to radians per
    /// second, stores the converted pair and also returns it.
    pub fn convert_to_rad_per_sec(&mut self) -> (r: WheelState)
        requires
            -(i64::MAX as int) <= fx_mul_spec(old(self).left as int, TWO_PI as int)
                <= i64::MAX as int,
            -(i64::MAX as int) <= fx_mul_spec(old(self).right as int, TWO_PI as int)
                <= i64::MAX as int,
        ensures
            final(self).left as int == rpm_to_rad_per_sec_spec(old(self).left as int),
            final(self).right as int == rpm_to_rad_per_sec_spec(old(self).right as int),
            r == *final(self),
    {
        self.left = rpm_to_rad_per_sec(self.left);
        self.right = rpm_to_rad_per_sec(self.right);
        WheelState { left: self.left, right: self.right }
    }
}

impl Default for WheelState {
    /// Both wheels at zero.
    fn default() -> (r: WheelState)
        ensures
            r.left == 0,
            r.right == 0,
    {
        WheelState { left: 0, right: 0 }
    }
}

/// Left wheel speed commanded for a twist:
/// `(1 / radius) * (-(sep / 2) * thetadot + xdot)` in fixed point.
pub open spec fn left_speed_spec(radius: int, sep: int, v: Twist2D) -> int {
    fx_mul_spec(
        fx_div_spec(SCALE as int, radius),
        v.xdot - fx_mul_spec(v.thetadot as int, sep / 2),
    )
}

/// Right wheel speed commanded for a twist:
/// `(1 / radius) * ((sep / 2) * thetadot + xdot)` in fixed point.
pub open spec fn right_speed_spec(radius: int, sep: int, v: Twist2D) -> int {
    fx_mul_spec(
        fx_div_spec(SCALE as int, radius),
        v.xdot + fx_mul_spec(v.thetadot as int, sep / 2),
    )
}

/// Body angular rate recovered from wheel speeds:
/// `(radius / sep) * (right - left)` in fixed point.
pub open spec fn twist_rot_of(radius: int, sep: int, l: int, rt: int) -> int {
    fx_mul_spec(fx_div_spec(radius, sep), rt - l)
}

/// Body forward rate recovered from wheel speeds:
/// `(radius / 2) * (left + right)` in fixed point.
pub open spec fn twist_xdot_of(radius: int, l: int, rt: int) -> int {
    fx_mul_spec(radius / 2, l + rt)
}

/// Recovering a twist from the wheel speeds commanded for it is exact on the
/// unit geometry (wheel radius one, wheel separation two): inverse
/// kinematics followed by its algebraic inverse returns the commanded
/// angular and forward rates unchanged, and a zero lateral rate. On other
/// geometries the round trip agrees only up to fixed-point rounding.
pub proof fn lemma_ik_round_trip_unit_geometry(v: Twist2D)
    requires
        twist_in_range(v),
    ensures
        twist_rot_of(
            SCALE as int,
            2 * (SCALE as int),
            left_speed_spec(SCALE as int, 2 * (SCALE as int), v),
            right_speed_spec(SCALE as int, 2 * (SCALE as int), v),
        ) == v.thetadot,
        twist_xdot_of(
            SCALE as int,
            left_speed_spec(SCALE as int, 2 * (SCALE as int), v),
            right_speed_spec(SCALE as int, 2 * (SCALE as int), v),
        ) == v.xdot,
{
    let s_ = SCALE as int;
    let td = v.thetadot as int;
    let xd = v.xdot as int;
    lemma_div_multiples_vanish(td, s_);
    assert(td * s_ == s_ * td) by (nonlinear_arith);
    assert(fx_mul_spec(td, s_) == td);
    lemma_div_multiples_vanish(s_, s_);
    assert(fx_div_spec(s_, s_) == s_);
    lemma_div_multiples_vanish(xd - td, s_);
    assert(s_ * (xd - td) == (xd - td) * s_) by (nonlinear_arith);
    let lf = left_speed_spec(s_, 2 * s_, v);
    assert(lf == xd - td);
    lemma_div_multiples_vanish(xd + td, s_);
    assert(s_ * (xd + td) == (xd + td) * s_) by (nonlinear_arith);
    let rt = right_speed_spec(s_, 2 * s_, v);
    assert(rt == xd + td);
    assert(fx_div_spec(s_, 2 * s_) == 500_000_000);
    assert(500_000_000 * (rt - lf) == s_ * td) by (nonlinear_arith)
        requires
            rt - lf == 2 * td,
            s_ == 1_000_000_000,
    ;
    lemma_div_multiples_vanish(td, s_);
    assert(twist_rot_of(s_, 2 * s_, lf, rt) == td);
    assert(500_000_000 * (lf + rt) == s_ * xd) by (nonlinear_arith)
        requires
            lf + rt == 2 * xd,
            s_ == 1_000_000_000,
    ;
    lemma_div_multiples_vanish(xd, s_);
    assert(twist_xdot_of(s_, lf, rt) == xd);
}

/// Recovering a twist from the wheel speeds commanded for it stays within
/// five hundred-thousandths of a unit of the commanded angular and forward
/// rates, for any wheel geometry between a tenth of a unit and ten units
/// with an aspect ratio of at most ten, and rates of at most a thousand
/// units per second. The bound is the accumulated fixed-point rounding of
/// the six divisions on the way there and back; outside this regime the
/// rounding of the wheel ratio is magnified past it.
pub proof fn lemma_ik_round_trip_bounded(radius: int, sep: int, v: Twist2D)
    requires
        100_000_000 <= radius <= 10_000_000_000,
        100_000_000 <= sep <= 10_000_000_000,
        sep <= 10 * radius,
        radius <= 10 * sep,
        -1_000_000_000_000 <= v.thetadot <= 1_000_000_000_000,
        -1_000_000_000_000 <= v.xdot <= 1_000_000_000_000,
    ensures
        -50_000 <= twist_rot_of(
            radius,
            sep,
            left_speed_spec(radius, sep, v),
            right_speed_spec(radius, sep, v),
        ) - v.thetadot <= 50_000,
        -50_000 <= twist_xdot_of(
            radius,
            left_speed_spec(radius, sep, v),
            right_speed_spec(radius, sep, v),
        ) - v.xdot <= 50_000,
{
    let s_ = SCALE as int;
    let td = v.thetadot as int;
    let xd = v.xdot as int;
    let h = sep / 2;
    let w = fx_mul_spec(td, h);
    let inv = fx_div_spec(s_, radius);
    let lf = left_speed_spec(radius, sep, v);
    let rt = right_speed_spec(radius, sep, v);
    let hr = radius / 2;
    let xo = twist_xdot_of(radius, lf, rt);
    // division-with-remainder forms of every rounded step
    lemma_fundamental_div_mod(radius, 2);
    lemma_mod_bound(radius, 2);
    let f0 = radius % 2;
    lemma_fundamental_div_mod(s_ * s_, radius);
    lemma_mod_bound(s_ * s_, radius);
    let e2 = (s_ * s_) % radius;
    assert(inv == (s_ * s_) / radius);
    lemma_fundamental_div_mod(inv * (xd - w), s_);
    lemma_mod_bound(inv * (xd - w), s_);
    let e3 = (inv * (xd - w)) % s_;
    assert(lf == (inv * (xd - w)) / s_);
    lemma_fundamental_div_mod(inv * (xd + w), s_);
    lemma_mod_bound(inv * (xd + w), s_);
    let e4 = (inv * (xd + w)) % s_;
    assert(rt == (inv * (xd + w)) / s_);
    lemma_fundamental_div_mod(hr * (lf + rt), s_);
    lemma_mod_bound(hr * (lf + rt), s_);
    let e7 = (hr * (lf + rt)) % s_;
    assert(xo == (hr * (lf + rt)) / s_);
    // inv is bounded by the smallest radius
    lemma_div_is_ordered_by_denominator(s_ * s_, 100_000_000, radius);
    assert(inv <= 10_000_000_000);
    assert(0 <= inv) by (nonlinear_arith)
        requires
            radius * inv == s_ * s_ - e2,
            0 <= e2 < radius,
            0 < radius,
    ;
    // the scaled output differs from the scaled input only by remainders
    assert(s_ * lf + s_ * rt == 2 * (inv * xd) - e3 - e4) by (nonlinear_arith)
        requires
            inv * (xd - w) == s_ * lf + e3,
            inv * (xd + w) == s_ * rt + e4,
    ;
    assert(hr * (s_ * lf + s_ * rt) == s_ * (s_ * xo) + s_ * e7) by (nonlinear_arith)
        requires
            hr * (lf + rt) == s_ * xo + e7,
    ;
    assert(hr * (s_ * lf + s_ * rt) == hr * (2 * (inv * xd) - e3 - e4));
    assert(hr * (2 * (inv * xd) - e3 - e4) == (2 * hr) * (inv * xd) - hr * (e3 + e4))
        by (nonlinear_arith);
    assert((2 * hr) * (inv * xd) == (s_ * s_ - e2) * xd - f0 * (inv * xd)) by (nonlinear_arith)
        requires
            radius == 2 * hr + f0,
            radius * inv == s_ * s_ - e2,
    ;
    assert(s_ * (s_ * xo) == (s_ * s_ - e2) * xd - f0 * (inv * xd) - hr * (e3 + e4) - s_ * e7);
    // every remainder term is small in the scaled picture
    assert(-50_000 * (s_ * s_) <= s_ * (s_ * xo) - (s_ * s_) * xd <= 50_000 * (s_ * s_))
        by (nonlinear_arith)
        requires
            s_ == 1_000_000_000,
            s_ * (s_ * xo) == (s_ * s_ - e2) * xd - f0 * (inv * xd) - hr * (e3 + e4) - s_ * e7,
            0 <= e2 < radius,
            0 <= f0 < 2,
            0 <= e3 < s_,
            0 <= e4 < s_,
            0 <= e7 < s_,
            0 <= inv <= 10_000_000_000,
            0 <= hr <= 5_000_000_000,
            radius <= 10_000_000_000,
            -1_000_000_000_000 <= xd <= 1_000_000_000_000,
    ;
    assert(-50_000 <= xo - xd <= 50_000) by (nonlinear_arith)
        requires
            s_ == 1_000_000_000,
            -50_000 * (s_ * s_) <= s_ * (s_ * xo) - (s_ * s_) * xd <= 50_000 * (s_ * s_),
    ;
    // the angular chain, with the remaining rounded steps
    let ratio = fx_div_spec(radius, sep);
    let rot = twist_rot_of(radius, sep, lf, rt);
    lemma_fundamental_div_mod(sep, 2);
    lemma_mod_bound(sep, 2);
    let e0 = sep % 2;
    lemma_fundamental_div_mod(td * h, s_);
    lemma_mod_bound(td * h, s_);
    let e1 = (td * h) % s_;
    assert(w == (td * h) / s_);
    lemma_fundamental_div_mod(radius * s_, sep);
    lemma_mod_bound(radius * s_, sep);
    let e5 = (radius * s_) % sep;
    assert(ratio == (radius * s_) / sep);
    lemma_fundamental_div_mod(ratio * (rt - lf), s_);
    lemma_mod_bound(ratio * (rt - lf), s_);
    let e6 = (ratio * (rt - lf)) % s_;
    assert(rot == (ratio * (rt - lf)) / s_);
    // ranges of the rounded factors
    assert(0 <= ratio) by (nonlinear_arith)
        requires
            sep * ratio == radius * s_ - e5,
            0 <= e5 < sep,
            0 < sep,
            0 < radius,
            0 < s_,
    ;
    assert(ratio <= 10 * s_) by (nonlinear_arith)
        requires
            sep * ratio == radius * s_ - e5,
            0 <= e5,
            0 < sep,
            radius <= 10 * sep,
            s_ == 1_000_000_000,
            0 <= ratio,
    ;
    assert(-500_000_000_000 * sep - s_ < s_ * w <= 500_000_000_000 * sep) by (nonlinear_arith)
        requires
            s_ * w == td * h - e1,
            0 <= e1 < s_,
            2 * h <= sep,
            0 <= h,
            -1_000_000_000_000 <= td <= 1_000_000_000_000,
            s_ == 1_000_000_000,
    ;
    assert(-500 * sep - 1 <= w <= 500 * sep) by (nonlinear_arith)
        requires
            s_ == 1_000_000_000,
            -500_000_000_000 * sep - s_ < s_ * w <= 500_000_000_000 * sep,
            0 < sep,
    ;
    // identity chain: the scaled output equals the scaled input plus
    // remainder terms
    assert(s_ * rt - s_ * lf == 2 * (inv * w) + e3 - e4) by (nonlinear_arith)
        requires
            inv * (xd - w) == s_ * lf + e3,
            inv * (xd + w) == s_ * rt + e4,
    ;
    assert(ratio * (s_ * rt - s_ * lf) == s_ * (s_ * rot) + s_ * e6) by (nonlinear_arith)
        requires
            ratio * (rt - lf) == s_ * rot + e6,
    ;
    assert(ratio * (s_ * rt - s_ * lf) == ratio * (2 * (inv * w) + e3 - e4));
    assert(ratio * (2 * (inv * w) + e3 - e4) == 2 * (ratio * (inv * w)) + ratio * (e3 - e4))
        by (nonlinear_arith);
    assert(s_ * (s_ * rot) == 2 * (ratio * (inv * w)) + ratio * (e3 - e4) - s_ * e6);
    assert((sep * radius) * (s_ * (s_ * rot)) == (sep * radius) * (2 * (ratio * (inv * w))) + (
    sep * radius) * (ratio * (e3 - e4)) - (sep * radius) * (s_ * e6)) by (nonlinear_arith)
        requires
            s_ * (s_ * rot) == 2 * (ratio * (inv * w)) + ratio * (e3 - e4) - s_ * e6,
    ;
    assert((sep * radius) * (2 * (ratio * (inv * w))) == 2 * (sep * (radius * (ratio * (inv
        * w))))) by (nonlinear_arith);
    assert(radius * (ratio * (inv * w)) == ratio * ((radius * inv) * w)) by (nonlinear_arith);
    assert(sep * (ratio * ((radius * inv) * w)) == (sep * ratio) * ((radius * inv) * w))
        by (nonlinear_arith);
    assert((radius * inv) * w == (s_ * s_ - e2) * w);
    assert((sep * ratio) * ((s_ * s_ - e2) * w) == (radius * s_ - e5) * ((s_ * s_ - e2) * w));
    assert((radius * s_ - e5) * ((s_ * s_ - e2) * w) == (radius * s_) * ((s_ * s_ - e2) * w) - e5
        * ((s_ * s_ - e2) * w)) by (nonlinear_arith);
    assert((radius * s_) * ((s_ * s_ - e2) * w) == (radius * s_) * ((s_ * s_) * w) - (radius * s_)
        * (e2 * w)) by (nonlinear_arith);
    assert((s_ * s_) * w == s_ * (s_ * w)) by (nonlinear_arith);
    assert((radius * s_) * ((s_ * s_) * w) == (radius * s_) * (s_ * (s_ * w)));
    assert((radius * s_) * (s_ * (s_ * w)) == (radius * s_) * (s_ * (td * h)) - (radius * s_) * (
    s_ * e1)) by (nonlinear_arith)
        requires
            s_ * w == td * h - e1,
    ;
    assert((radius * s_) * (s_ * (td * h)) == radius * ((s_ * s_) * (td * h)))
        by (nonlinear_arith);
    assert(h * (radius * ((s_ * s_) * td)) == radius * ((s_ * s_) * (td * h)))
        by (nonlinear_arith);
    assert((radius * s_) * (s_ * (td * e0)) == e0 * (radius * ((s_ * s_) * td)))
        by (nonlinear_arith);
    assert((sep * radius) * ((s_ * s_) * td) == 2 * (h * (radius * ((s_ * s_) * td))) + e0 * (
    radius * ((s_ * s_) * td))) by (nonlinear_arith)
        requires
            sep == 2 * h + e0,
    ;
    assert(2 * ((radius * s_) * (s_ * (td * h))) == (sep * radius) * ((s_ * s_) * td) - (radius
        * s_) * (s_ * (td * e0)));
    // collect: the scaled difference is a sum of remainder terms
    assert((sep * radius) * (s_ * (s_ * rot)) - (sep * radius) * ((s_ * s_) * td) == -((radius
        * s_) * (s_ * (td * e0))) - 2 * ((radius * s_) * (s_ * e1)) - 2 * ((radius * s_) * (e2
        * w)) - 2 * (e5 * ((s_ * s_ - e2) * w)) + (sep * radius) * (ratio * (e3 - e4)) - (sep
        * radius) * (s_ * e6));
    // bound each remainder term against the common positive scale
    let p_ = (sep * radius) * (s_ * s_);
    assert(p_ >= 1) by (nonlinear_arith)
        requires
            p_ == (sep * radius) * (s_ * s_),
            0 < sep,
            0 < radius,
            s_ == 1_000_000_000,
    ;
    assert(-(10_000 * p_) <= -((radius * s_) * (s_ * (td * e0))) <= 10_000 * p_)
        by (nonlinear_arith)
        requires
            p_ == (sep * radius) * (s_ * s_),
            s_ == 1_000_000_000,
            0 <= e0 <= 1,
            -1_000_000_000_000 <= td <= 1_000_000_000_000,
            100_000_000 <= sep,
            0 < radius,
    ;
    assert(-(20 * p_) <= -(2 * ((radius * s_) * (s_ * e1))) <= 20 * p_) by (nonlinear_arith)
        requires
            p_ == (sep * radius) * (s_ * s_),
            s_ == 1_000_000_000,
            0 <= e1 < s_,
            100_000_000 <= sep,
            0 < radius,
    ;
    assert(-(10_001 * p_) <= -(2 * ((radius * s_) * (e2 * w))) <= 10_001 * p_)
        by (nonlinear_arith)
        requires
            p_ == (sep * radius) * (s_ * s_),
            s_ == 1_000_000_000,
            0 <= e2,
            e2 < radius,
            radius <= 10_000_000_000,
            -500 * sep - 1 <= w <= 500 * sep,
            100_000_000 <= sep,
            0 < radius,
    ;
    assert(-(10_002 * p_) <= -(2 * (e5 * ((s_ * s_ - e2) * w))) <= 10_002 * p_)
        by (nonlinear_arith)
        requires
            p_ == (sep * radius) * (s_ * s_),
            s_ == 1_000_000_000,
            0 <= e5,
            e5 < sep,
            sep <= 10 * radius,
            0 <= e2,
            e2 < radius,
            radius <= 10_000_000_000,
            -500 * sep - 1 <= w <= 500 * sep,
            100_000_000 <= radius,
            100_000_000 <= sep,
    ;
    assert(-(10 * p_) <= (sep * radius) * (ratio * (e3 - e4)) <= 10 * p_) by (nonlinear_arith)
        requires
            p_ == (sep * radius) * (s_ * s_),
            s_ == 1_000_000_000,
            0 <= e3 < s_,
            0 <= e4 < s_,
            0 <= ratio <= 10 * s_,
            0 < sep,
            0 < radius,
    ;
    assert(-(1 * p_) <= -((sep * radius) * (s_ * e6)) <= 1 * p_) by (nonlinear_arith)
        requires
            p_ == (sep * radius) * (s_ * s_),
            s_ == 1_000_000_000,
            0 <= e6 < s_,
            0 < sep,
            0 < radius,
    ;
    assert(-(50_000 * p_) <= (sep * radius) * (s_ * (s_ * rot)) - (sep * radius) * ((s_ * s_)
        * td) <= 50_000 * p_);
    assert((sep * radius) * (s_ * (s_ * rot)) - (sep * radius) * ((s_ * s_) * td) == p_ * (rot
        - td)) by (nonlinear_arith)
        requires
            p_ == (sep * radius) * (s_ * s_),
    ;
    assert(-50_000 <= rot - td <= 50_000) by (nonlinear_arith)
        requires
            1 <= p_,
            -(50_000 * p_) <= p_ * (rot - td) <= 50_000 * p_,
    ;
}

/// One differential-drive robot's kinematic integrator: wheel geometry fixed
/// at construction, plus the evolving pose, wheel angles and wheel speeds.
pub struct DiffDrive {
    /// Radius of the robot's wheels
    wheel_radius: i64,
    /// Distance between the wheel centers
    wheel_separation: i64,
    /// World-frame position and heading
    pose: Pose2D,
    /// Wheel angles at the previous forward-kinematics step
    phi: WheelState,
    /// Wheel speeds over the previous unit time step
    phidot: WheelState,
}

impl DiffDrive {
    /// The wheel radius, for specifications.
    pub closed spec fn radius_spec(&self) -> int {
        self.wheel_radius as int
    }

    /// The wheel separation, for specifications.
    pub closed spec fn sep_spec(&self) -> int {
        self.wheel_separation as int
    }

    /// The stored pose, for specifications.
    pub closed spec fn pose_spec(&self) -> Pose2D {
        self.pose
    }

    /// The stored wheel angles, for specifications.
    pub closed spec fn phi_spec(&self) -> WheelState {
        self.phi
    }

    /// The stored wheel speeds, for specifications.
    pub closed spec fn phidot_spec(&self) -> WheelState {
        self.phidot
    }

    /// Well-formedness: wheel geometry within the accepted dimensions, and
    /// stored wheel angles within the kinematic range.
    pub open spec fn wf(&self) -> bool {
        &&& MIN_DIM <= self.radius_spec() <= MAX_DIM
        &&& MIN_DIM <= self.sep_spec() <= MAX_DIM
        &&& wheel_in_range(self.phi_spec())
    }

    /// Constructs a drive model at the origin with zero wheel state.
    pub fn new(wheel_radius: i64, wheel_separation: i64) -> (r: DiffDrive)
        requires
            MIN_DIM <= wheel_radius <= MAX_DIM,
            MIN_DIM <= wheel_separation <= MAX_DIM,
        ensures
            r.wf(),
            r.radius_spec() == wheel_radius,
            r.sep_spec() == wheel_separation,
            r.pose_spec() == (Pose2D { x: 0, y: 0, theta: 0 }),
            r.phi_spec() == (WheelState { left: 0, right: 0 }),
            r.phidot_spec() == (WheelState { left: 0, right: 0 }),
    {
        DiffDrive {
            wheel_radius,
            wheel_separation,
            pose: Pose2D::new(0, 0, 0),
            phi: WheelState::new(0, 0),
            phidot: WheelState::new(0, 0),
        }
    }

    /// Inverse kinematics: the wheel speeds that realize a commanded body
    /// twist. A twist with a lateral component that is not numerically zero
    /// is rejected, since a differential drive cannot move sideways; the
    /// computed speeds are cached as the model's last commanded speed.
    pub fn speeds_from_twist(&mut self, v: Twist2D) -> (r: Result<
        WheelState,
        KinematicsError,
    >)
        requires
            old(self).wf(),
            twist_in_range(v),
        ensures
            final(self).wf(),
            r is Ok <==> abs(v.ydot as int) < LATERAL_EPS as int,
            r is Err ==> *final(self) == *old(self),
            r is Err ==> r == Err::<WheelState, KinematicsError>(KinematicsError::NonZeroLateral),
            r is Ok ==> final(self).phidot_spec().left as int == left_speed_spec(
                old(self).radius_spec(),
                old(self).sep_spec(),
                v,
            ),
            r is Ok ==> final(self).phidot_spec().right as int == right_speed_spec(
                old(self).radius_spec(),
                old(self).sep_spec(),
                v,
            ),
            r is Ok ==> r == Ok::<WheelState, KinematicsError>(final(self).phidot_spec()),
            final(self).radius_spec() == old(self).radius_spec(),
            final(self).sep_spec() == old(self).sep_spec(),
            final(self).pose_spec() == old(self).pose_spec(),
            final(self).phi_spec() == old(self).phi_spec(),
    {
        if !(v.ydot > -LATERAL_EPS && v.ydot < LATERAL_EPS) {
            return Err(KinematicsError::NonZeroLateral);
        }
        let half_sep: i64 = div_floor_i64(self.wheel_separation, 2);
        proof {
            lemma_fx_div_le(
                SCALE as int,
                self.wheel_radius as int,
                SCALE as int,
                MIN_DIM as int,
                1_000_000_000_001,
            );
        }
        let inv_r: i64 = fx_div(SCALE, self.wheel_radius);
        proof {
            lemma_fx_mul_le_factor(v.thetadot as int, half_sep as int, 500);
        }
        let w: i64 = fx_mul(v.thetadot, half_sep);
        proof {
            lemma_fx_mul_le_factor(inv_r as int, v.xdot as int - w as int, 5_010_000);
        }
        let left: i64 = fx_mul(inv_r, v.xdot - w);
        proof {
            lemma_fx_mul_le_factor(inv_r as int, v.xdot as int + w as int, 5_010_000);
        }
        let right: i64 = fx_mul(inv_r, v.xdot + w);
        self.phidot = WheelState { left, right };
        Ok(self.phidot)
    }

    /// The body twist produced by the given wheel speeds: the algebraic
    /// inverse of inverse kinematics. Pure; a differential drive never moves
    /// sideways, so the lateral rate is zero.
    pub fn twist_from_speeds(&self, phidot: WheelState) -> (r: Twist2D)
        requires
            self.wf(),
            -2 * MAX_RATE as int <= phidot.left as int <= 2 * MAX_RATE as int,
            -2 * MAX_RATE as int <= phidot.right as int <= 2 * MAX_RATE as int,
            in_i64(
                twist_rot_of(
                    self.radius_spec(),
                    self.sep_spec(),
                    phidot.left as int,
                    phidot.right as int,
                ),
            ),
        ensures
            r.thetadot as int == twist_rot_of(
                self.radius_spec(),
                self.sep_spec(),
                phidot.left as int,
                phidot.right as int,
            ),
            r.xdot as int == twist_xdot_of(
                self.radius_spec(),
                phidot.left as int,
                phidot.right as int,
            ),
            r.ydot == 0,
    {
        proof {
            lemma_fx_div_le(
                self.wheel_radius as int,
                self.wheel_separation as int,
                MAX_DIM as int,
                MIN_DIM as int,
                1_000_000_000_000_001,
            );
        }
        let ratio: i64 = fx_div(self.wheel_radius, self.wheel_separation);
        let td: i64 = fx_mul(ratio, phidot.right - phidot.left);
        let half_r: i64 = div_floor_i64(self.wheel_radius, 2);
        proof {
            lemma_fx_mul_le_factor(half_r as int, phidot.left as int + phidot.right as int, 40_000);
        }
        let xd: i64 = fx_mul(half_r, phidot.left + phidot.right);
        Twist2D { thetadot: td, xdot: xd, ydot: 0 }
    }

    /// The angular rate of the twist that forward kinematics integrates: the
    /// wheel-angle increments fed through [`twist_rot_of`].
    pub open spec fn fk_rot_twist(m: DiffDrive, phi_new: WheelState) -> int {
        twist_rot_of(
            m.radius_spec(),
            m.sep_spec(),
            phi_new.left - m.phi_spec().left,
            phi_new.right - m.phi_spec().right,
        )
    }

    /// The forward rate of the twist that forward kinematics integrates.
    pub open spec fn fk_x_twist(m: DiffDrive, phi_new: WheelState) -> int {
        twist_xdot_of(
            m.radius_spec(),
            phi_new.left - m.phi_spec().left,
            phi_new.right - m.phi_spec().right,
        )
    }

    /// Heading after forward kinematics: the previous heading plus the
    /// integrated rotation of the wheel-increment twist.
    pub open spec fn fk_theta_spec(m: DiffDrive, phi_new: WheelState) -> int {
        m.pose_spec().theta + integrate_rot_of(Self::fk_rot_twist(m, phi_new))
    }

    /// World x position after forward kinematics: the body-frame
    /// displacement of the integrated twist, rotated into the world frame by
    /// the previous heading and added to the previous position.
    pub open spec fn fk_x_spec(m: DiffDrive, phi_new: WheelState) -> int {
        let td = Self::fk_rot_twist(m, phi_new);
        let xd = Self::fk_x_twist(m, phi_new);
        m.pose_spec().x + fx_mul_spec(
            integrate_tx_of(td, xd, 0),
            cos_spec(m.pose_spec().theta as int),
        ) - fx_mul_spec(integrate_ty_of(td, xd, 0), sin_spec(m.pose_spec().theta as int))
    }

    /// World y position after forward kinematics.
    pub open spec fn fk_y_spec(m: DiffDrive, phi_new: WheelState) -> int {
        let td = Self::fk_rot_twist(m, phi_new);
        let xd = Self::fk_x_twist(m, phi_new);
        m.pose_spec().y + fx_mul_spec(
            integrate_tx_of(td, xd, 0),
            sin_spec(m.pose_spec().theta as int),
        ) + fx_mul_spec(integrate_ty_of(td, xd, 0), cos_spec(m.pose_spec().theta as int))
    }

    /// Forward kinematics: treats the difference between the new and stored
    /// wheel angles as the wheel speeds over one unit of time, converts them
    /// to a body twist, integrates that twist, composes the displacement
    /// with the stored pose in the world frame, and stores and returns the
    /// new pose. An odometric integrator: each call stands for one time
    /// step.
    pub fn forward_kinematics(&mut self, phi_new: WheelState) -> (r: Pose2D)
        requires
            old(self).wf(),
            wheel_in_range(phi_new),
            pose_in_range(old(self).pose_spec()),
            abs(Self::fk_rot_twist(*old(self), phi_new)) <= MAX_RATE as int,
            abs(Self::fk_x_twist(*old(self), phi_new)) <= MAX_RATE as int,
        ensures
            final(self).wf(),
            final(self).radius_spec() == old(self).radius_spec(),
            final(self).sep_spec() == old(self).sep_spec(),
            final(self).phi_spec() == phi_new,
            final(self).phidot_spec().left as int == phi_new.left - old(self).phi_spec().left,
            final(self).phidot_spec().right as int == phi_new.right - old(self).phi_spec().right,
            final(self).pose_spec().theta as int == Self::fk_theta_spec(*old(self), phi_new),
            final(self).pose_spec().x as int == Self::fk_x_spec(*old(self), phi_new),
            final(self).pose_spec().y as int == Self::fk_y_spec(*old(self), phi_new),
            r == final(self).pose_spec(),
    {
        let dl: i64 = phi_new.left - self.phi.left;
        let dr: i64 = phi_new.right - self.phi.right;
        self.phidot = WheelState { left: dl, right: dr };
        self.phi = phi_new;
        let body_twist: Twist2D = self.twist_from_speeds(self.phidot);
        let twb: Transform2D = Transform2D::new(
            Vector2D::new(self.pose.x, self.pose.y),
            self.pose.theta,
        );
        let tb: Transform2D = twb.integrate_twist(body_twist);
        let tw2: Transform2D = twb.mul(tb);
        self.pose = Pose2D { x: tw2.p_vec.x, y: tw2.p_vec.y, theta: tw2.angle };
        self.pose
    }
}

} // verus!
