//! An N-body gravity simulation core with fixed-point arithmetic.
//!
//! Positions, velocities and accelerations are held in thousandths
//! (`fixed::SCALE` units per simulation-space unit), so that the whole
//! integrator is exact integer code. A value that leaves the representable
//! range becomes `Fixed::NonFinite`, the analogue of an IEEE NaN/infinity,
//! and the recovery pass resets any body that carries one.

use vstd::prelude::*;

pub mod fixed;
pub mod integrator;
pub mod params;
pub mod render;
pub mod rng;
pub mod state;
pub mod vec3;

pub use fixed::Fixed;
pub use fixed::SCALE;
pub use fixed::FIX_MAX;
pub use params::SimParams;
pub use state::SimState;
pub use vec3::Vec3;

verus! {

} // verus!
