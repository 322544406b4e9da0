use vstd::prelude::*;

use crate::fixed::FIX_MAX;
use crate::fixed::SCALE;

verus! {

/// Tunable simulation constants, all in fixed-point units.
///
/// `g` is the gravitational constant, `drag` the linear damping factor,
/// `speed_cap` the per-axis velocity magnitude beyond which a body is judged
/// divergent, and the six bounds describe the simulation box.
#[derive(Clone, Copy, PartialEq, Eq, Structural, Debug)]
pub struct SimParams {
    pub g: i64,
    pub drag: i64,
    pub speed_cap: i64,
    pub x_min: i64,
    pub x_max: i64,
    pub y_min: i64,
    pub y_max: i64,
    pub z_min: i64,
    pub z_max: i64,
}

impl SimParams {
    pub open spec fn wf(self) -> bool {
        &&& 0 <= self.g <= FIX_MAX
        &&& 0 <= self.drag <= FIX_MAX
        &&& 0 < self.speed_cap <= FIX_MAX
        &&& -FIX_MAX <= self.x_min < self.x_max <= FIX_MAX
        &&& -FIX_MAX <= self.y_min < self.y_max <= FIX_MAX
        &&& -FIX_MAX <= self.z_min < self.z_max <= FIX_MAX
    }

    /// The reference configuration: `G = 2000`, `DRAG = 0.001`, `C = 10000`,
    /// a `[0, 100]` box on every axis.
    pub fn reference() -> (r: SimParams)
        ensures
            r.wf(),
            r.g == 2000 * SCALE,
            r.drag == 1,
            r.speed_cap == 10000 * SCALE,
            r.x_min == 0 && r.x_max == 100 * SCALE,
            r.y_min == 0 && r.y_max == 100 * SCALE,
            r.z_min == 0 && r.z_max == 100 * SCALE,
    {
        SimParams {
            g: 2_000_000,
            drag: 1,
            speed_cap: 10_000_000,
            x_min: 0,
            x_max: 100_000,
            y_min: 0,
            y_max: 100_000,
            z_min: 0,
            z_max: 100_000,
        }
    }
}

} // verus!
