//! Numeric helpers on fixed-point scalars: tolerance comparison, unit
//! conversions, angle normalization, sequence generators and point distance.

use crate::fixed::{
    div_floor_i64, fx_div, fx_div_spec, fx_mul, fx_mul_spec, in_i64, int_sqrt, is_sqrt_of,
    lemma_fx_div_big_den, PI, SCALE, TWO_PI,
};
use crate::rigid2d::{dist_sq, Vector2D};
use vstd::arithmetic::div_mod::{
    lemma_fundamental_div_mod, lemma_mod_add_multiples_vanish, lemma_mod_bound,
    lemma_mod_sub_multiples_vanish,
};
use vstd::math::abs;
use vstd::prelude::*;

verus! {

/// Whether two scalars differ by less than `epsilon`.
pub fn almost_equal(d1: i64, d2: i64, epsilon: i64) -> (r: bool)
    requires
        in_i64(d1 - d2),
    ensures
        r == (abs(d1 as int - d2 as int) < epsilon as int),
{
    let diff: i64 = d1 - d2;
    if epsilon <= 0 {
        false
    } else if diff < 0 {
        diff > -epsilon
    } else {
        diff < epsilon
    }
}

/// Degrees scaled to radians: multiplication by pi, division by one hundred
/// eighty.
pub open spec fn deg2rad_spec(deg: int) -> int {
    fx_div_spec(fx_mul_spec(deg, PI as int), 180 * (SCALE as int))
}

/// Radians scaled to degrees: multiplication by one hundred eighty, division
/// by pi.
pub open spec fn rad2deg_spec(rad: int) -> int {
    fx_div_spec(fx_mul_spec(rad, 180 * (SCALE as int)), PI as int)
}

/// Revolutions per minute scaled to radians per second: multiplication by
/// two pi, division by sixty.
pub open spec fn rpm_to_rad_per_sec_spec(speed: int) -> int {
    fx_div_spec(fx_mul_spec(speed, TWO_PI as int), 60 * (SCALE as int))
}

/// Radians per second scaled to revolutions per minute: multiplication by
/// sixty, division by two pi.
pub open spec fn rad_per_sec_to_rpm_spec(speed: int) -> int {
    fx_div_spec(fx_mul_spec(speed, 60 * (SCALE as int)), TWO_PI as int)
}

/// Converts degrees to radians.
pub fn deg2rad(deg: i64) -> (r: i64)
    requires
        -(i64::MAX as int) <= fx_mul_spec(deg as int, PI as int) <= i64::MAX as int,
    ensures
        r as int == deg2rad_spec(deg as int),
{
    let a: i64 = fx_mul(deg, PI);
    proof {
        lemma_fx_div_big_den(a as int, 180 * (SCALE as int));
    }
    fx_div(a, 180_000_000_000)
}

/// Converts radians to degrees.
pub fn rad2deg(rad: i64) -> (r: i64)
    requires
        -(i64::MAX as int) <= fx_mul_spec(rad as int, 180 * (SCALE as int)) <= i64::MAX as int,
    ensures
        r as int == rad2deg_spec(rad as int),
{
    let a: i64 = fx_mul(rad, 180_000_000_000);
    proof {
        lemma_fx_div_big_den(a as int, PI as int);
    }
    fx_div(a, PI)
}

/// Converts revolutions per minute to radians per second.
pub fn rpm_to_rad_per_sec(speed: i64) -> (r: i64)
    requires
        -(i64::MAX as int) <= fx_mul_spec(speed as int, TWO_PI as int) <= i64::MAX as int,
    ensures
        r as int == rpm_to_rad_per_sec_spec(speed as int),
{
    let a: i64 = fx_mul(speed, TWO_PI);
    proof {
        lemma_fx_div_big_den(a as int, 60 * (SCALE as int));
    }
    fx_div(a, 60_000_000_000)
}

/// Converts radians per second to revolutions per minute.
pub fn rad_per_sec_to_rpm(speed: i64) -> (r: i64)
    requires
        -(i64::MAX as int) <= fx_mul_spec(speed as int, 60 * (SCALE as int)) <= i64::MAX as int,
    ensures
        r as int == rad_per_sec_to_rpm_spec(speed as int),
{
    let a: i64 = fx_mul(speed, 60_000_000_000);
    proof {
        lemma_fx_div_big_den(a as int, TWO_PI as int);
    }
    fx_div(a, TWO_PI)
}

/// Normalizes an angle into `(-PI, PI]` by shifting whole turns, except that
/// an angle within one millionth of a unit of `-PI` maps directly to `PI`.
pub fn normalize_angle(rad: i64) -> (r: i64)
    ensures
        abs(rad as int + PI as int) < 1_000 ==> r == PI,
        abs(rad as int + PI as int) >= 1_000 ==> -(PI as int) < r as int <= PI as int,
        abs(rad as int + PI as int) >= 1_000 ==> (rad as int - r as int) % (TWO_PI as int) == 0,
{
    if rad > -PI - 1_000 && rad < -PI + 1_000 {
        return PI;
    }
    let mut x: i64 = rad;
    while x > PI
        invariant
            (rad as int - x as int) % (TWO_PI as int) == 0,
            x <= rad,
        decreases x + PI,
    {
        proof {
            lemma_mod_add_multiples_vanish(rad as int - x as int, TWO_PI as int);
        }
        x = x - TWO_PI;
    }
    while x <= -PI
        invariant
            (rad as int - x as int) % (TWO_PI as int) == 0,
            x <= PI,
        decreases PI - x,
    {
        proof {
            lemma_mod_sub_multiples_vanish(rad as int - x as int, TWO_PI as int);
        }
        x = x + TWO_PI;
    }
    x
}

/// Bounds of an index multiple: scaling an index between `0` and `m` by a
/// step keeps the product between `0` and `m` steps.
proof fn lemma_index_scale_bounds(i: int, m: int, step: int)
    by (nonlinear_arith)
    requires
        0 <= i <= m,
    ensures
        step >= 0 ==> 0 <= i * step <= m * step,
        step < 0 ==> m * step <= i * step <= 0,
{
}

/// The common step of a linearly spaced sequence: the whole span divided by
/// the number of gaps, rounded toward negative infinity.
pub open spec fn linspace_step_spec(start: int, stop: int, num_points: int) -> int {
    (stop - start) / (num_points - 1)
}

/// A linearly spaced sequence of `num_points` scalars from `start` toward
/// `stop`: element `j` is `start + j` steps.
pub fn linspace(start: i64, stop: i64, num_points: usize) -> (r: Vec<i64>)
    requires
        2 <= num_points <= 0x7FFF_FFFF_FFFF_FFFF,
        i64::MIN < stop as int - start as int <= i64::MAX,
        i64::MIN <= stop as int - start as int - num_points as int + 2,
        i64::MIN <= stop as int - num_points as int + 2,
    ensures
        r@.len() == num_points,
        forall|j: int|
            0 <= j < num_points ==> #[trigger] r@[j] as int == start as int + j
                * linspace_step_spec(start as int, stop as int, num_points as int),
{
    let diff: i64 = stop - start;
    let nm1: i64 = (num_points - 1) as i64;
    let step: i64 = div_floor_i64(diff, nm1);
    proof {
        lemma_fundamental_div_mod(diff as int, nm1 as int);
        lemma_mod_bound(diff as int, nm1 as int);
        assert((nm1 as int) * (step as int) == (step as int) * (nm1 as int)) by (nonlinear_arith);
    }
    let mut out: Vec<i64> = Vec::new();
    let mut i: usize = 0;
    while i < num_points
        invariant
            out@.len() == i,
            i <= num_points,
            2 <= num_points <= 0x7FFF_FFFF_FFFF_FFFF,
            nm1 as int == num_points as int - 1,
            step as int == linspace_step_spec(start as int, stop as int, num_points as int),
            diff as int == stop as int - start as int,
            i64::MIN <= stop as int - start as int - num_points as int + 2,
            i64::MIN <= stop as int - num_points as int + 2,
            (stop as int - start as int) - (num_points as int - 1) < (nm1 as int) * (step as int)
                <= stop as int - start as int,
            forall|j: int|
                0 <= j < i ==> #[trigger] out@[j] as int == start as int + j * (step as int),
        decreases num_points - i,
    {
        proof {
            lemma_index_scale_bounds(i as int, nm1 as int, step as int);
        }
        let val: i64 = start + (i as i64) * step;
        out.push(val);
        i = i + 1;
    }
    out
}

/// The number of elements of an arithmetic sequence from `start` to `stop`
/// with positive `step`: the whole quotient of the span plus one.
pub open spec fn arange_len_spec(start: int, stop: int, step: int) -> int {
    (stop - start) / step + 1
}

/// An arithmetic sequence of scalars from `start` to at most `stop`,
/// separated by `step`: element `j` is `start + j * step`.
pub fn arange(start: i64, stop: i64, step: i64) -> (r: Vec<i64>)
    requires
        0 < step,
        start <= stop,
        (stop as int - start as int) < i64::MAX,
    ensures
        (r@.len() as int) == arange_len_spec(start as int, stop as int, step as int),
        forall|j: int|
            0 <= j < r@.len() ==> #[trigger] r@[j] as int == start as int + j * (step as int),
{
    let diff: i64 = stop - start;
    let q: i64 = div_floor_i64(diff, step);
    proof {
        lemma_fundamental_div_mod(diff as int, step as int);
        lemma_mod_bound(diff as int, step as int);
        assert((step as int) * (q as int) == (q as int) * (step as int)) by (nonlinear_arith);
        lemma_index_scale_bounds(q as int, q as int, step as int);
    }
    let cnt: i64 = q + 1;
    let mut out: Vec<i64> = Vec::new();
    let mut i: i64 = 0;
    while i < cnt
        invariant
            out@.len() == i,
            0 <= i <= cnt,
            cnt as int == arange_len_spec(start as int, stop as int, step as int),
            0 < step,
            diff as int == stop as int - start as int,
            0 <= (cnt as int - 1) * (step as int) <= diff as int,
            forall|j: int|
                0 <= j < i ==> #[trigger] out@[j] as int == start as int + j * (step as int),
        decreases cnt - i,
    {
        proof {
            lemma_index_scale_bounds(i as int, cnt as int - 1, step as int);
        }
        let val: i64 = start + i * step;
        out.push(val);
        i = i + 1;
    }
    out
}

/// The Euclidean distance between two vectors taken as points.
pub fn distance(a: Vector2D, b: Vector2D) -> (r: i64)
    requires
        in_i64(b.x - a.x),
        in_i64(b.y - a.y),
        dist_sq(a, b) <= (i64::MAX as int) * (i64::MAX as int),
    ensures
        r as int == int_sqrt(dist_sq(a, b)),
        is_sqrt_of(dist_sq(a, b), r as int),
        0 <= r,
{
    a.distance(b)
}

} // verus!
