//! Simple precomputed paths built from the vector primitives.

use crate::fixed::{
    fx_mul, fx_mul_spec, fx_sqrt, int_sqrt, lemma_fx_mul_le_factor, SCALE,
};
use crate::rigid2d::Vector2D;
use crate::utils::{linspace, linspace_step_spec};
use vstd::arithmetic::div_mod::{lemma_div_is_ordered, lemma_div_pos_is_pos};
use vstd::prelude::*;

verus! {

/// Largest radius the semicircle construction accepts; machine limit
/// keeping the squared radius in the fixed-point range.
pub const MAX_PATH_RADIUS: i64 = 3_000_000_000_000;

/// The height of the circle of the given radius, centered at `(radius, 0)`,
/// above the point `x`: the fixed-point square root of
/// `radius^2 - (x - radius)^2`.
pub open spec fn semi_circle_y_spec(radius: int, x: int) -> int {
    int_sqrt(
        (fx_mul_spec(radius, radius) - fx_mul_spec(x - radius, x - radius)) * (SCALE as int),
    )
}

/// A sequence of waypoints.
pub struct Path {
    waypoints: Vec<Vector2D>,
}

impl Path {
    /// The stored waypoints, for specifications.
    pub closed spec fn waypoints_spec(&self) -> Seq<Vector2D> {
        self.waypoints@
    }

    /// A semicircular path of `npoints` waypoints: the x coordinates run
    /// linearly from zero to the diameter, and each y coordinate is the
    /// height of the circle above that x.
    pub fn semi_circle(radius: i64, npoints: usize) -> (r: Path)
        requires
            0 <= radius <= MAX_PATH_RADIUS,
            2 <= npoints <= 0x7FFF_FFFF_FFFF_FFFF,
        ensures
            r.waypoints_spec().len() == npoints,
            forall|j: int|
                0 <= j < npoints ==> (#[trigger] r.waypoints_spec()[j]).x as int == j
                    * linspace_step_spec(0, 2 * radius as int, npoints as int),
            forall|j: int|
                0 <= j < npoints ==> (#[trigger] r.waypoints_spec()[j]).y as int
                    == semi_circle_y_spec(radius as int, r.waypoints_spec()[j].x as int),
    {
        let traj_x: Vec<i64> = linspace(0, 2 * radius, npoints);
        proof {
            lemma_fx_mul_le_factor(radius as int, radius as int, 3_001);
        }
        let rr: i64 = fx_mul(radius, radius);
        let ghost step: int = linspace_step_spec(0, 2 * radius as int, npoints as int);
        proof {
            lemma_div_pos_is_pos(2 * radius as int, npoints as int - 1);
            vstd::arithmetic::div_mod::lemma_fundamental_div_mod(
                2 * radius as int,
                npoints as int - 1,
            );
            vstd::arithmetic::div_mod::lemma_mod_bound(2 * radius as int, npoints as int - 1);
            assert((npoints as int - 1) * step == step * (npoints as int - 1))
                by (nonlinear_arith);
        }
        let mut waypoints: Vec<Vector2D> = Vec::new();
        let mut i: usize = 0;
        while i < npoints
            invariant
                waypoints@.len() == i,
                i <= npoints,
                2 <= npoints <= 0x7FFF_FFFF_FFFF_FFFF,
                0 <= radius <= MAX_PATH_RADIUS,
                rr as int == fx_mul_spec(radius as int, radius as int),
                step == linspace_step_spec(0, 2 * radius as int, npoints as int),
                0 <= step,
                (npoints as int - 1) * step <= 2 * radius as int,
                traj_x@.len() == npoints,
                forall|j: int| 0 <= j < npoints ==> #[trigger] traj_x@[j] as int == j * step,
                forall|j: int|
                    0 <= j < i ==> (#[trigger] waypoints@[j]).x == traj_x@[j],
                forall|j: int|
                    0 <= j < i ==> (#[trigger] waypoints@[j]).y as int == semi_circle_y_spec(
                        radius as int,
                        traj_x@[j] as int,
                    ),
            decreases npoints - i,
        {
            let xi: i64 = traj_x[i];
            proof {
                assert(0 <= (i as int) * step <= (npoints as int - 1) * step) by (nonlinear_arith)
                    requires
                        0 <= step,
                        0 <= i as int <= npoints as int - 1,
                ;
                assert((xi as int - radius as int) * (xi as int - radius as int) <= (
                radius as int) * (radius as int)) by (nonlinear_arith)
                    requires
                        0 <= xi as int <= 2 * radius as int,
                ;
                lemma_fx_mul_le_factor(xi as int - radius as int, xi as int - radius as int, 3_001);
                lemma_div_is_ordered(
                    (xi as int - radius as int) * (xi as int - radius as int),
                    (radius as int) * (radius as int),
                    SCALE as int,
                );
                assert(0 <= (xi as int - radius as int) * (xi as int - radius as int))
                    by (nonlinear_arith);
                lemma_div_pos_is_pos(
                    (xi as int - radius as int) * (xi as int - radius as int),
                    SCALE as int,
                );
            }
            let d: i64 = xi - radius;
            let dd: i64 = fx_mul(d, d);
            let y: i64 = fx_sqrt(rr - dd);
            waypoints.push(Vector2D { x: xi, y });
            i = i + 1;
        }
        Path { waypoints }
    }

    /// A copy of the waypoints.
    pub fn to_vec(&self) -> (r: Vec<Vector2D>)
        ensures
            r@ == self.waypoints_spec(),
    {
        let mut out: Vec<Vector2D> = Vec::new();
        let mut i: usize = 0;
        while i < self.waypoints.len()
            invariant
                out@.len() == i,
                i <= self.waypoints@.len(),
                forall|j: int| 0 <= j < i ==> #[trigger] out@[j] == self.waypoints@[j],
            decreases self.waypoints@.len() - i,
        {
            let v: Vector2D = self.waypoints[i];
            out.push(v);
            i = i + 1;
        }
        proof {
            assert(out@ =~= self.waypoints@);
        }
        out
    }
}

} // verus!
