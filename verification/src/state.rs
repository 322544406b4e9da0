use vstd::prelude::*;

use crate::fixed::Fixed;
use crate::params::SimParams;
use crate::rng::random_in_range;
use crate::vec3::Vec3;
use crate::vec3::all_wf;
use crate::vec3::spec_zero;
use crate::vec3::v3_wf;

verus! {

/// The ghost image of a simulation state: the three parallel columns as
/// mathematical sequences.
#[verifier::ext_equal]
pub ghost struct StateView {
    pub pos: Seq<Vec3>,
    pub vel: Seq<Vec3>,
    pub acc: Seq<Vec3>,
}

/// The whole mutable state of the simulation: parallel position, velocity
/// and acceleration columns, entry `i` of each belonging to body `i`.
pub struct SimState {
    pub pos: Vec<Vec3>,
    pub vel: Vec<Vec3>,
    pub acc: Vec<Vec3>,
}

/// The body sits strictly inside the simulation box on every axis.
pub open spec fn in_box(v: Vec3, p: SimParams) -> bool {
    &&& v.x matches Fixed::Finite(x) && p.x_min <= x < p.x_max
    &&& v.y matches Fixed::Finite(y) && p.y_min <= y < p.y_max
    &&& v.z matches Fixed::Finite(z) && p.z_min <= z < p.z_max
}

impl View for SimState {
    type V = StateView;

    open spec fn view(&self) -> StateView {
        StateView { pos: self.pos@, vel: self.vel@, acc: self.acc@ }
    }
}

impl SimState {
    /// The columns have equal length and every stored component is a
    /// well-formed scalar.
    pub open spec fn wf(self) -> bool {
        &&& self.pos@.len() == self.vel@.len()
        &&& self.pos@.len() == self.acc@.len()
        &&& all_wf(self.pos@)
        &&& all_wf(self.vel@)
        &&& all_wf(self.acc@)
    }

    /// Build the state the simulation starts from: `count` bodies placed
    /// uniformly at random inside the box, at rest and unaccelerated.
    pub fn initialize(count: u8, params: &SimParams) -> (s: SimState)
        requires
            params.wf(),
        ensures
            s.wf(),
            s@.pos.len() == count,
            s@.vel.len() == count,
            s@.acc.len() == count,
            forall|i: int| 0 <= i < count ==> in_box(#[trigger] s@.pos[i], *params),
            forall|i: int| 0 <= i < count ==> s@.vel[i] == spec_zero(),
            forall|i: int| 0 <= i < count ==> s@.acc[i] == spec_zero(),
    {
        let mut pos: Vec<Vec3> = Vec::new();
        let mut vel: Vec<Vec3> = Vec::new();
        let mut acc: Vec<Vec3> = Vec::new();
        init_position(&mut pos, count, params);
        init_speed(&mut vel, count);
        init_acceleration(&mut acc, count);
        proof {
            assert forall|i: int| 0 <= i < pos@.len() implies v3_wf(#[trigger] pos@[i]) by {
                assert(in_box(pos@[i], *params));
            }
            assert forall|i: int| 0 <= i < vel@.len() implies v3_wf(#[trigger] vel@[i]) by {
                assert(vel@[i] == spec_zero());
            }
            assert forall|i: int| 0 <= i < acc@.len() implies v3_wf(#[trigger] acc@[i]) by {
                assert(acc@[i] == spec_zero());
            }
        }
        SimState { pos, vel, acc }
    }
}

/// Append `count` positions drawn uniformly inside the simulation box.
pub fn init_position(pos: &mut Vec<Vec3>, count: u8, params: &SimParams)
    requires
        params.wf(),
        old(pos)@.len() + count <= usize::MAX,
    ensures
        final(pos)@.len() == old(pos)@.len() + count,
        forall|i: int| 0 <= i < old(pos)@.len() ==> final(pos)@[i] == old(pos)@[i],
        forall|i: int|
            old(pos)@.len() <= i < final(pos)@.len() ==> in_box(#[trigger] final(pos)@[i], *params),
{
    let mut k: u8 = 0;
    while k < count
        invariant
            params.wf(),
            k <= count,
            old(pos)@.len() + count <= usize::MAX,
            pos@.len() == old(pos)@.len() + k,
            forall|i: int| 0 <= i < old(pos)@.len() ==> pos@[i] == old(pos)@[i],
            forall|i: int| old(pos)@.len() <= i < pos@.len() ==> in_box(#[trigger] pos@[i], *params),
        decreases count - k,
    {
        let a = random_in_range(params.x_min, params.x_max);
        let b = random_in_range(params.y_min, params.y_max);
        let c = random_in_range(params.z_min, params.z_max);
        let p = Vec3 { x: Fixed::Finite(a), y: Fixed::Finite(b), z: Fixed::Finite(c) };
        pos.push(p);
        k = k + 1;
    }
}

/// Append `count` zero velocities.
pub fn init_speed(spd: &mut Vec<Vec3>, count: u8)
    requires
        old(spd)@.len() + count <= usize::MAX,
    ensures
        final(spd)@.len() == old(spd)@.len() + count,
        forall|i: int| 0 <= i < old(spd)@.len() ==> final(spd)@[i] == old(spd)@[i],
        forall|i: int|
            old(spd)@.len() <= i < final(spd)@.len() ==> #[trigger] final(spd)@[i] == spec_zero(),
{
    let mut k: u8 = 0;
    while k < count
        invariant
            k <= count,
            old(spd)@.len() + count <= usize::MAX,
            spd@.len() == old(spd)@.len() + k,
            forall|i: int| 0 <= i < old(spd)@.len() ==> spd@[i] == old(spd)@[i],
            forall|i: int| old(spd)@.len() <= i < spd@.len() ==> #[trigger] spd@[i] == spec_zero(),
        decreases count - k,
    {
        spd.push(Vec3::zero());
        k = k + 1;
    }
}

/// Append `count` zero accelerations.
pub fn init_acceleration(acc: &mut Vec<Vec3>, count: u8)
    requires
        old(acc)@.len() + count <= usize::MAX,
    ensures
        final(acc)@.len() == old(acc)@.len() + count,
        forall|i: int| 0 <= i < old(acc)@.len() ==> final(acc)@[i] == old(acc)@[i],
        forall|i: int|
            old(acc)@.len() <= i < final(acc)@.len() ==> #[trigger] final(acc)@[i] == spec_zero(),
{
    let mut k: u8 = 0;
    while k < count
        invariant
            k <= count,
            old(acc)@.len() + count <= usize::MAX,
            acc@.len() == old(acc)@.len() + k,
            forall|i: int| 0 <= i < old(acc)@.len() ==> acc@[i] == old(acc)@[i],
            forall|i: int| old(acc)@.len() <= i < acc@.len() ==> #[trigger] acc@[i] == spec_zero(),
        decreases count - k,
    {
        acc.push(Vec3::zero());
        k = k + 1;
    }
}

} // verus!
