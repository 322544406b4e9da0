use vstd::prelude::*;

use crate::fixed::Fixed;
use crate::fixed::fx_add;
use crate::fixed::fx_scale;
use crate::fixed::fx_sub;
use crate::fixed::fx_wf;
use crate::fixed::spec_add;
use crate::fixed::spec_scale;
use crate::fixed::spec_sub;

verus! {

/// A three-component fixed-point vector: one body's position, velocity or
/// acceleration.
#[derive(Clone, Copy, PartialEq, Eq, Structural, Debug)]
pub struct Vec3 {
    pub x: Fixed,
    pub y: Fixed,
    pub z: Fixed,
}

pub open spec fn v3_wf(v: Vec3) -> bool {
    fx_wf(v.x) && fx_wf(v.y) && fx_wf(v.z)
}

pub open spec fn v3_finite(v: Vec3) -> bool {
    v.x is Finite && v.y is Finite && v.z is Finite
}

pub open spec fn spec_zero() -> Vec3 {
    Vec3 { x: Fixed::Finite(0), y: Fixed::Finite(0), z: Fixed::Finite(0) }
}

pub open spec fn spec_v3_add(a: Vec3, b: Vec3) -> Vec3 {
    Vec3 { x: spec_add(a.x, b.x), y: spec_add(a.y, b.y), z: spec_add(a.z, b.z) }
}

pub open spec fn spec_v3_sub(a: Vec3, b: Vec3) -> Vec3 {
    Vec3 { x: spec_sub(a.x, b.x), y: spec_sub(a.y, b.y), z: spec_sub(a.z, b.z) }
}

/// Componentwise product with a fixed-point factor.
pub open spec fn spec_v3_scale(a: Vec3, k: int) -> Vec3 {
    Vec3 { x: spec_scale(a.x, k), y: spec_scale(a.y, k), z: spec_scale(a.z, k) }
}

impl Vec3 {
    pub fn zero() -> (r: Vec3)
        ensures
            r == spec_zero(),
    {
        Vec3 { x: Fixed::Finite(0), y: Fixed::Finite(0), z: Fixed::Finite(0) }
    }

    pub fn is_finite(&self) -> (b: bool)
        ensures
            b == v3_finite(*self),
    {
        let fx = match self.x {
            Fixed::Finite(_) => true,
            Fixed::NonFinite => false,
        };
        let fy = match self.y {
            Fixed::Finite(_) => true,
            Fixed::NonFinite => false,
        };
        let fz = match self.z {
            Fixed::Finite(_) => true,
            Fixed::NonFinite => false,
        };
        fx && fy && fz
    }
}

/// Every vector of the sequence has well-formed components.
pub open spec fn all_wf(s: Seq<Vec3>) -> bool {
    forall|i: int| 0 <= i < s.len() ==> v3_wf(#[trigger] s[i])
}

pub proof fn lemma_all_wf_update(s: Seq<Vec3>, i: int, v: Vec3)
    requires
        all_wf(s),
        0 <= i < s.len(),
        v3_wf(v),
    ensures
        all_wf(s.update(i, v)),
{
    assert forall|k: int| 0 <= k < s.update(i, v).len() implies v3_wf(
        #[trigger] s.update(i, v)[k],
    ) by {
        if k != i {
            assert(s.update(i, v)[k] == s[k]);
            assert(v3_wf(s[k]));
        }
    }
}

pub fn v3_add(a: Vec3, b: Vec3) -> (r: Vec3)
    ensures
        r == spec_v3_add(a, b),
        v3_wf(r),
{
    Vec3 { x: fx_add(a.x, b.x), y: fx_add(a.y, b.y), z: fx_add(a.z, b.z) }
}

pub fn v3_sub(a: Vec3, b: Vec3) -> (r: Vec3)
    ensures
        r == spec_v3_sub(a, b),
        v3_wf(r),
{
    Vec3 { x: fx_sub(a.x, b.x), y: fx_sub(a.y, b.y), z: fx_sub(a.z, b.z) }
}

pub fn v3_scale(a: Vec3, k: i64) -> (r: Vec3)
    ensures
        r == spec_v3_scale(a, k as int),
        v3_wf(r),
{
    Vec3 { x: fx_scale(a.x, k), y: fx_scale(a.y, k), z: fx_scale(a.z, k) }
}

} // verus!
