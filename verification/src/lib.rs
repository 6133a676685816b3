//! Planar rigid-body kinematics for differential-drive mobile robots.
//!
//! All scalars in this crate are fixed-point numbers: an `i64` counts
//! billionths of a unit (radians, meters, radians per second, ...), so the
//! whole SE(2) algebra is exact integer arithmetic with explicitly specified
//! rounding. The [`fixed`] module defines the scalar operations, [`rigid2d`]
//! the vector / pose / twist / transform algebra, [`ddrive`] the
//! differential-drive kinematics built on top of it, [`utils`] small numeric
//! helpers and [`trajectory`] simple precomputed paths.

pub mod ddrive;
pub mod fixed;
pub mod rigid2d;
pub mod trajectory;
pub mod utils;

pub use fixed::SCALE;
