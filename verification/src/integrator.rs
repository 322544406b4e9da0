use vstd::prelude::*;

use crate::fixed::FIX_MAX;
use crate::fixed::Fixed;
use crate::fixed::SCALE;
use crate::fixed::abs_int;
use crate::fixed::abs_u64;
use crate::fixed::clip;
use crate::fixed::in_range;
use crate::fixed::trunc_div;
use crate::fixed::fx_abs;
use crate::fixed::fx_neg_abs;
use crate::fixed::spec_abs;
use crate::fixed::spec_neg_abs;
use crate::params::SimParams;
use crate::rng::random_in_range;
use crate::state::SimState;
use crate::state::StateView;
use crate::state::in_box;
use crate::vec3::Vec3;
use crate::vec3::spec_v3_add;
use crate::vec3::spec_v3_scale;
use crate::vec3::spec_v3_sub;
use crate::vec3::spec_zero;
use crate::vec3::all_wf;
use crate::vec3::lemma_all_wf_update;
use crate::vec3::v3_add;
use crate::vec3::v3_finite;
use crate::vec3::v3_scale;
use crate::vec3::v3_sub;
use crate::vec3::v3_wf;

verus! {

/// The mathematical square root of `n`, rounded down.
pub open spec fn sqrt_floor(n: int) -> int
    recommends
        n >= 0,
{
    choose|r: int| 0 <= r && #[trigger] (r * r) <= n && n < (r + 1) * (r + 1)
}

proof fn lemma_sqrt_exists(n: int)
    requires
        n >= 0,
    ensures
        exists|r: int| 0 <= r && #[trigger] (r * r) <= n && n < (r + 1) * (r + 1),
    decreases n,
{
    if n == 0 {
        assert(0 * 0 <= n && n < (0 + 1) * (0 + 1)) by (nonlinear_arith)
            requires
                n == 0,
        ;
        assert(0 <= 0 && 0 * 0 <= n && n < (0 + 1) * (0 + 1));
    } else {
        lemma_sqrt_exists(n - 1);
        let r = choose|r: int| 0 <= r && #[trigger] (r * r) <= n - 1 && (n - 1) < (r + 1) * (r + 1);
        if (r + 1) * (r + 1) <= n {
            assert(0 <= r + 1 && (r + 1) * (r + 1) <= n && n < ((r + 1) + 1) * ((r + 1) + 1))
                by (nonlinear_arith)
                requires
                    r >= 0,
                    n - 1 < (r + 1) * (r + 1),
                    (r + 1) * (r + 1) <= n,
            ;
        } else {
            assert(0 <= r && r * r <= n && n < (r + 1) * (r + 1));
        }
    }
}

proof fn lemma_sqrt_unique(n: int, r: int)
    requires
        0 <= r,
        r * r <= n,
        n < (r + 1) * (r + 1),
    ensures
        r == sqrt_floor(n),
{
    let s = sqrt_floor(n);
    assert(0 <= s && s * s <= n && n < (s + 1) * (s + 1));
    assert(r == s) by (nonlinear_arith)
        requires
            0 <= r,
            0 <= s,
            r * r <= n,
            n < (r + 1) * (r + 1),
            s * s <= n,
            n < (s + 1) * (s + 1),
    ;
}

/// A quotient of a bounded non-negative dividend is bounded.
proof fn lemma_div_le(n: int, b: int, d: int)
    requires
        0 <= n,
        0 < d,
        n <= b * d,
    ensures
        0 <= n / d <= b,
{
    assert(0 <= n / d && n / d <= b) by (nonlinear_arith)
        requires
            0 <= n,
            0 < d,
            n <= b * d,
    ;
}

/// Integer square root by bisection.
fn isqrt(n: u128) -> (r: u64)
    requires
        n < 0x1000000000000000000000000u128,
    ensures
        (r as int) * (r as int) <= n as int,
        (n as int) < ((r as int) + 1) * ((r as int) + 1),
        r as int == sqrt_floor(n as int),
{
    let mut lo: u128 = 0;
    let mut hi: u128 = 0x1000000000000u128;
    proof {
        assert((hi as int) * (hi as int) == 0x1000000000000000000000000);
    }
    while lo + 1 < hi
        invariant
            lo < hi,
            hi <= 0x1000000000000u128,
            (lo as int) * (lo as int) <= n as int,
            (n as int) < (hi as int) * (hi as int),
        decreases hi - lo,
    {
        let mid: u128 = lo + (hi - lo) / 2;
        proof {
            assert(mid * mid < 0x100000000000000000000000000u128) by (nonlinear_arith)
                requires
                    mid <= 0x1000000000000u128,
            ;
        }
        let sq: u128 = mid * mid;
        if sq <= n {
            lo = mid;
        } else {
            hi = mid;
        }
    }
    proof {
        assert(hi == lo + 1);
        lemma_sqrt_unique(n as int, lo as int);
    }
    lo as u64
}

/// Clamp a squared distance to the `1.0` floor that keeps the force law away
/// from the singularity at zero separation.
pub open spec fn clamp_d2(d2: int) -> int {
    if d2 < (SCALE as int) * (SCALE as int) {
        (SCALE as int) * (SCALE as int)
    } else {
        d2
    }
}

/// The gravitational pull of body `j` (at `pj`) on body `i` (at `pi`): a
/// magnitude of `g` over the clamped squared distance, decomposed along the
/// unit vector from `i` toward `j`, each division rounding toward zero.
/// A pair with any non-finite coordinate yields a non-finite contribution.
pub open spec fn spec_pair_accel(pi: Vec3, pj: Vec3, g: int) -> Vec3 {
    if v3_finite(pi) && v3_finite(pj) {
        let dx = pj.x.unwrap() - pi.x.unwrap();
        let dy = pj.y.unwrap() - pi.y.unwrap();
        let dz = pj.z.unwrap() - pi.z.unwrap();
        let d2 = clamp_d2(dx * dx + dy * dy + dz * dz);
        let an = g * (SCALE as int) * (SCALE as int) / d2;
        let dist = sqrt_floor(d2);
        Vec3 {
            x: clip(trunc_div(an * dx, dist)),
            y: clip(trunc_div(an * dy, dist)),
            z: clip(trunc_div(an * dz, dist)),
        }
    } else {
        Vec3 { x: Fixed::NonFinite, y: Fixed::NonFinite, z: Fixed::NonFinite }
    }
}

/// One signed component of the pairwise pull: `an * d / dist`, rounded
/// toward zero, with `ad == |d|`.
fn accel_component(an: u128, d: i64, ad: u128, dist: u64) -> (c: i64)
    requires
        an <= FIX_MAX as u128,
        0 < dist,
        ad as int == abs_int(d as int),
        ad <= dist as u128,
    ensures
        c as int == trunc_div(an as int * d as int, dist as int),
        in_range(c as int),
{
    proof {
        assert(an * ad <= an * (dist as u128)) by (nonlinear_arith)
            requires
                ad <= dist as u128,
        ;
        assert(an * (dist as u128) <= (FIX_MAX as u128) * (dist as u128)) by (nonlinear_arith)
            requires
                an <= FIX_MAX as u128,
        ;
        assert((FIX_MAX as u128) * (dist as u128) <= 0x10000000000000000000000000000u128)
            by (nonlinear_arith)
            requires
                dist <= 0xffffffffffffffffu64,
        ;
    }
    let m: u128 = an * ad / (dist as u128);
    proof {
        lemma_div_le(an as int * ad as int, an as int, dist as int);
        crate::fixed::lemma_product_signs(an as int, d as int);
    }
    if d < 0 {
        -(m as i64)
    } else {
        m as i64
    }
}

/// Gravitational pull of `pj` on `pi`, as verified executable code.
pub fn pair_accel(pi: &Vec3, pj: &Vec3, g: i64) -> (r: Vec3)
    requires
        v3_wf(*pi),
        v3_wf(*pj),
        0 <= g <= FIX_MAX,
    ensures
        r == spec_pair_accel(*pi, *pj, g as int),
        v3_wf(r),
{
    if !(pi.is_finite() && pj.is_finite()) {
        return Vec3 { x: Fixed::NonFinite, y: Fixed::NonFinite, z: Fixed::NonFinite };
    }
    let dx: i64 = pj.x.value() - pi.x.value();
    let dy: i64 = pj.y.value() - pi.y.value();
    let dz: i64 = pj.z.value() - pi.z.value();
    let adx: u128 = abs_u64(dx) as u128;
    let ady: u128 = abs_u64(dy) as u128;
    let adz: u128 = abs_u64(dz) as u128;
    proof {
        crate::fixed::lemma_product_signs(dx as int, dx as int);
        crate::fixed::lemma_product_signs(dy as int, dy as int);
        crate::fixed::lemma_product_signs(dz as int, dz as int);
        assert(adx * adx <= 4_000_000_000_000_000_000_000_000u128 && ady * ady
            <= 4_000_000_000_000_000_000_000_000u128 && adz * adz <= 4_000_000_000_000_000_000_000_000u128)
            by (nonlinear_arith)
            requires
                adx <= 2 * (FIX_MAX as u128),
                ady <= 2 * (FIX_MAX as u128),
                adz <= 2 * (FIX_MAX as u128),
                FIX_MAX == 1_000_000_000_000i64,
        ;
    }
    let d2_raw: u128 = adx * adx + ady * ady + adz * adz;
    let s2: u128 = 1_000_000u128;
    proof {
        assert(s2 as int == (SCALE as int) * (SCALE as int));
    }
    let d2: u128 = if d2_raw < s2 {
        s2
    } else {
        d2_raw
    };
    let gs: u128 = (g as u128) * s2;
    let an: u128 = gs / d2;
    proof {
        assert(gs <= (g as u128) * d2) by (nonlinear_arith)
            requires
                s2 <= d2,
                gs == (g as u128) * s2,
        ;
        lemma_div_le(gs as int, g as int, d2 as int);
    }
    let dist: u64 = isqrt(d2);
    proof {
        assert(dist >= 1) by (nonlinear_arith)
            requires
                (dist as int) * (dist as int) <= d2 as int,
                (d2 as int) < ((dist as int) + 1) * ((dist as int) + 1),
                d2 >= 1000000u128,
        ;
        assert(adx <= dist as u128 && ady <= dist as u128 && adz <= dist as u128)
            by (nonlinear_arith)
            requires
                adx * adx <= d2,
                ady * ady <= d2,
                adz * adz <= d2,
                (d2 as int) < ((dist as int) + 1) * ((dist as int) + 1),
                dist >= 1,
        ;
    }
    let cx: i64 = accel_component(an, dx, adx, dist);
    let cy: i64 = accel_component(an, dy, ady, dist);
    let cz: i64 = accel_component(an, dz, adz, dist);
    Vec3 { x: Fixed::Finite(cx), y: Fixed::Finite(cy), z: Fixed::Finite(cz) }
}

/// Net pull on body `i` from the bodies `0..j` other than `i` itself,
/// accumulated in index order.
pub open spec fn spec_accum(pos: Seq<Vec3>, i: int, j: int, g: int) -> Vec3
    decreases j,
{
    if j <= 0 {
        spec_zero()
    } else if j - 1 == i {
        spec_accum(pos, i, j - 1, g)
    } else {
        spec_v3_add(spec_accum(pos, i, j - 1, g), spec_pair_accel(pos[i], pos[j - 1], g))
    }
}

/// Net pull on body `i` from every other body.
pub open spec fn spec_accel(pos: Seq<Vec3>, i: int, g: int) -> Vec3 {
    spec_accum(pos, i, pos.len() as int, g)
}

/// Acceleration after linear damping: `a - drag * v`.
pub open spec fn spec_drag(a: Vec3, v: Vec3, drag: int) -> Vec3 {
    spec_v3_sub(a, spec_v3_scale(v, drag))
}

/// The deterministic part of a step: fresh pairwise accelerations with drag,
/// then explicit-Euler velocity and position updates, before any recovery.
pub open spec fn spec_advance(s: StateView, prm: SimParams, dt: int) -> StateView {
    let n = s.pos.len();
    let acc = Seq::new(
        n,
        |i: int| spec_drag(spec_accel(s.pos, i, prm.g as int), s.vel[i], prm.drag as int),
    );
    let vel = Seq::new(n, |i: int| spec_v3_add(s.vel[i], spec_v3_scale(acc[i], dt)));
    let pos = Seq::new(n, |i: int| spec_v3_add(s.pos[i], spec_v3_scale(vel[i], dt)));
    StateView { pos, vel, acc }
}

/// A scalar that left the finite range, or whose magnitude passed the cap.
pub open spec fn fx_diverged(v: Fixed, cap: int) -> bool {
    match v {
        Fixed::Finite(x) => abs_int(x as int) > cap,
        Fixed::NonFinite => true,
    }
}

/// A body is judged divergent when its position has a non-finite component,
/// or its velocity has a non-finite component or one beyond the speed cap.
pub open spec fn spec_needs_reset(p: Vec3, v: Vec3, cap: int) -> bool {
    !v3_finite(p) || fx_diverged(v.x, cap) || fx_diverged(v.y, cap) || fx_diverged(v.z, cap)
}

/// Velocity sign correction at one wall: outward magnitude below the minimum,
/// inward magnitude above the maximum, untouched in between.
pub open spec fn spec_reflect_axis(pc: Fixed, vc: Fixed, lo: int, hi: int) -> Fixed {
    match pc {
        Fixed::Finite(p) => if (p as int) < lo {
            spec_abs(vc)
        } else if (p as int) > hi {
            spec_neg_abs(vc)
        } else {
            vc
        },
        Fixed::NonFinite => vc,
    }
}

/// Velocity after reflective boundary clamping on all three axes.
pub open spec fn spec_reflect(p: Vec3, v: Vec3, prm: SimParams) -> Vec3 {
    Vec3 {
        x: spec_reflect_axis(p.x, v.x, prm.x_min as int, prm.x_max as int),
        y: spec_reflect_axis(p.y, v.y, prm.y_min as int, prm.y_max as int),
        z: spec_reflect_axis(p.z, v.z, prm.z_min as int, prm.z_max as int),
    }
}

/// What recovery guarantees for one body: a divergent one is teleported into
/// the box at rest; any other keeps its position and has only its velocity
/// signs corrected at the walls.
pub open spec fn body_recovered(pp: Vec3, pv: Vec3, qp: Vec3, qv: Vec3, prm: SimParams) -> bool {
    if spec_needs_reset(pp, pv, prm.speed_cap as int) {
        in_box(qp, prm) && qv == spec_zero()
    } else {
        qp == pp && qv == spec_reflect(pp, pv, prm)
    }
}

/// What one recovery pass guarantees for the whole state; accelerations are
/// untouched, and the reset positions are the only values it leaves open.
pub open spec fn recover_ok(pre: StateView, post: StateView, prm: SimParams) -> bool {
    &&& post.pos.len() == pre.pos.len()
    &&& post.vel.len() == pre.vel.len()
    &&& post.acc == pre.acc
    &&& forall|i: int|
        0 <= i < pre.pos.len() && i < pre.vel.len() ==> body_recovered(
            pre.pos[i],
            pre.vel[i],
            post.pos[i],
            post.vel[i],
            prm,
        )
}

fn fx_diverged_exec(v: Fixed, cap: i64) -> (b: bool)
    requires
        cap >= 0,
    ensures
        b == fx_diverged(v, cap as int),
{
    match v {
        Fixed::Finite(x) => x > cap || x < -cap,
        Fixed::NonFinite => true,
    }
}

fn needs_reset_exec(p: &Vec3, v: &Vec3, cap: i64) -> (b: bool)
    requires
        cap >= 0,
    ensures
        b == spec_needs_reset(*p, *v, cap as int),
{
    !p.is_finite() || fx_diverged_exec(v.x, cap) || fx_diverged_exec(v.y, cap) || fx_diverged_exec(
        v.z,
        cap,
    )
}

impl SimState {
    /// Zero every acceleration: the first phase of a step.
    pub fn clear_accelerations(&mut self)
        requires
            old(self).wf(),
        ensures
            final(self).wf(),
            final(self)@.pos == old(self)@.pos,
            final(self)@.vel == old(self)@.vel,
            final(self)@.acc.len() == old(self)@.acc.len(),
            forall|i: int|
                0 <= i < final(self)@.acc.len() ==> final(self)@.acc[i] == spec_zero(),
    {
        let ghost orig: StateView = self@;
        let n: usize = self.acc.len();
        let mut i: usize = 0;
        while i < n
            invariant
                self.wf(),
                i <= n,
                n == self.acc@.len(),
                self@.pos == orig.pos,
                self@.vel == orig.vel,
                self@.acc.len() == orig.acc.len(),
                forall|k: int| 0 <= k < i ==> self@.acc[k] == spec_zero(),
            decreases n - i,
        {
            let z = Vec3::zero();
            proof {
                lemma_all_wf_update(self.acc@, i as int, z);
            }
            self.acc[i] = z;
            i = i + 1;
        }
    }

    /// Accumulate the pairwise gravitational pulls: the second phase.
    pub fn accumulate_gravity(&mut self, g: i64)
        requires
            old(self).wf(),
            0 <= g <= FIX_MAX,
            forall|i: int| 0 <= i < old(self)@.acc.len() ==> old(self)@.acc[i] == spec_zero(),
        ensures
            final(self).wf(),
            final(self)@.pos == old(self)@.pos,
            final(self)@.vel == old(self)@.vel,
            final(self)@.acc.len() == old(self)@.acc.len(),
            forall|i: int|
                0 <= i < final(self)@.acc.len() ==> final(self)@.acc[i] == spec_accel(
                    old(self)@.pos,
                    i,
                    g as int,
                ),
    {
        let ghost orig: StateView = self@;
        let n: usize = self.pos.len();
        let mut i: usize = 0;
        while i < n
            invariant
                self.wf(),
                i <= n,
                0 <= g <= FIX_MAX,
                n == self.pos@.len(),
                self@.pos == orig.pos,
                self@.vel == orig.vel,
                self@.acc.len() == orig.acc.len(),
                orig.acc.len() == n,
                forall|k: int| 0 <= k < i ==> self@.acc[k] == spec_accel(orig.pos, k, g as int),
                forall|k: int| i <= k < n ==> self@.acc[k] == spec_zero(),
            decreases n - i,
        {
            let mut j: usize = 0;
            while j < n
                invariant
                    self.wf(),
                    i < n,
                    j <= n,
                    0 <= g <= FIX_MAX,
                    n == self.pos@.len(),
                    self@.pos == orig.pos,
                    self@.vel == orig.vel,
                    self@.acc.len() == orig.acc.len(),
                    orig.acc.len() == n,
                    forall|k: int| 0 <= k < i ==> self@.acc[k] == spec_accel(orig.pos, k, g as int),
                    self@.acc[i as int] == spec_accum(orig.pos, i as int, j as int, g as int),
                    forall|k: int| i < k < n ==> self@.acc[k] == spec_zero(),
                decreases n - j,
            {
                if i != j {
                    let pi = self.pos[i];
                    let pj = self.pos[j];
                    let pa = pair_accel(&pi, &pj, g);
                    let cur = self.acc[i];
                    let nxt = v3_add(cur, pa);
                    proof {
                        lemma_all_wf_update(self.acc@, i as int, nxt);
                    }
                    self.acc[i] = nxt;
                }
                j = j + 1;
            }
            i = i + 1;
        }
    }

    /// Apply linear drag to every acceleration: the third phase.
    pub fn apply_drag(&mut self, drag: i64)
        requires
            old(self).wf(),
        ensures
            final(self).wf(),
            final(self)@.pos == old(self)@.pos,
            final(self)@.vel == old(self)@.vel,
            final(self)@.acc.len() == old(self)@.acc.len(),
            forall|i: int|
                0 <= i < final(self)@.acc.len() ==> final(self)@.acc[i] == spec_drag(
                    old(self)@.acc[i],
                    old(self)@.vel[i],
                    drag as int,
                ),
    {
        let ghost orig: StateView = self@;
        let n: usize = self.acc.len();
        let mut i: usize = 0;
        while i < n
            invariant
                self.wf(),
                i <= n,
                n == self.acc@.len(),
                self@.pos == orig.pos,
                self@.vel == orig.vel,
                self@.acc.len() == orig.acc.len(),
                self@.vel.len() == self@.acc.len(),
                forall|k: int|
                    0 <= k < i ==> self@.acc[k] == spec_drag(
                        orig.acc[k],
                        orig.vel[k],
                        drag as int,
                    ),
                forall|k: int| i <= k < n ==> self@.acc[k] == orig.acc[k],
            decreases n - i,
        {
            let dv = v3_scale(self.vel[i], drag);
            let cur = self.acc[i];
            let nxt = v3_sub(cur, dv);
            proof {
                lemma_all_wf_update(self.acc@, i as int, nxt);
            }
            self.acc[i] = nxt;
            i = i + 1;
        }
    }

    /// Explicit-Euler velocity update: the fourth phase.
    pub fn integrate_velocity(&mut self, dt: i64)
        requires
            old(self).wf(),
        ensures
            final(self).wf(),
            final(self)@.pos == old(self)@.pos,
            final(self)@.acc == old(self)@.acc,
            final(self)@.vel.len() == old(self)@.vel.len(),
            forall|i: int|
                0 <= i < final(self)@.vel.len() ==> final(self)@.vel[i] == spec_v3_add(
                    old(self)@.vel[i],
                    spec_v3_scale(old(self)@.acc[i], dt as int),
                ),
    {
        let ghost orig: StateView = self@;
        let n: usize = self.vel.len();
        let mut i: usize = 0;
        while i < n
            invariant
                self.wf(),
                i <= n,
                n == self.vel@.len(),
                self@.pos == orig.pos,
                self@.acc == orig.acc,
                self@.vel.len() == orig.vel.len(),
                self@.acc.len() == self@.vel.len(),
                forall|k: int|
                    0 <= k < i ==> self@.vel[k] == spec_v3_add(
                        orig.vel[k],
                        spec_v3_scale(orig.acc[k], dt as int),
                    ),
                forall|k: int| i <= k < n ==> self@.vel[k] == orig.vel[k],
            decreases n - i,
        {
            let d = v3_scale(self.acc[i], dt);
            let cur = self.vel[i];
            let nxt = v3_add(cur, d);
            proof {
                lemma_all_wf_update(self.vel@, i as int, nxt);
            }
            self.vel[i] = nxt;
            i = i + 1;
        }
    }

    /// Explicit-Euler position update: the fifth phase.
    pub fn integrate_position(&mut self, dt: i64)
        requires
            old(self).wf(),
        ensures
            final(self).wf(),
            final(self)@.vel == old(self)@.vel,
            final(self)@.acc == old(self)@.acc,
            final(self)@.pos.len() == old(self)@.pos.len(),
            forall|i: int|
                0 <= i < final(self)@.pos.len() ==> final(self)@.pos[i] == spec_v3_add(
                    old(self)@.pos[i],
                    spec_v3_scale(old(self)@.vel[i], dt as int),
                ),
    {
        let ghost orig: StateView = self@;
        let n: usize = self.pos.len();
        let mut i: usize = 0;
        while i < n
            invariant
                self.wf(),
                i <= n,
                n == self.pos@.len(),
                self@.vel == orig.vel,
                self@.acc == orig.acc,
                self@.pos.len() == orig.pos.len(),
                self@.vel.len() == self@.pos.len(),
                forall|k: int|
                    0 <= k < i ==> self@.pos[k] == spec_v3_add(
                        orig.pos[k],
                        spec_v3_scale(orig.vel[k], dt as int),
                    ),
                forall|k: int| i <= k < n ==> self@.pos[k] == orig.pos[k],
            decreases n - i,
        {
            let d = v3_scale(self.vel[i], dt);
            let cur = self.pos[i];
            let nxt = v3_add(cur, d);
            proof {
                lemma_all_wf_update(self.pos@, i as int, nxt);
            }
            self.pos[i] = nxt;
            i = i + 1;
        }
    }

    /// Reset divergent bodies and reflect at the box walls: the last phase.
    pub fn boundary_check(&mut self, params: &SimParams)
        requires
            old(self).wf(),
            params.wf(),
        ensures
            final(self).wf(),
            recover_ok(old(self)@, final(self)@, *params),
    {
        let ghost orig: StateView = self@;
        let n: usize = self.pos.len();
        let mut i: usize = 0;
        while i < n
            invariant
                self.wf(),
                params.wf(),
                i <= n,
                n == self.pos@.len(),
                self@.pos.len() == orig.pos.len(),
                self@.vel.len() == orig.vel.len(),
                self@.vel.len() == self@.pos.len(),
                self@.acc == orig.acc,
                forall|k: int|
                    0 <= k < i ==> body_recovered(
                        orig.pos[k],
                        orig.vel[k],
                        self@.pos[k],
                        self@.vel[k],
                        *params,
                    ),
                forall|k: int|
                    i <= k < n ==> self@.pos[k] == orig.pos[k] && self@.vel[k] == orig.vel[k],
            decreases n - i,
        {
            let p0 = self.pos[i];
            let v0 = self.vel[i];
            let reset = needs_reset_exec(&p0, &v0, params.speed_cap);
            if reset {
                let a = random_in_range(params.x_min, params.x_max);
                let b = random_in_range(params.y_min, params.y_max);
                let c = random_in_range(params.z_min, params.z_max);
                let np = Vec3 { x: Fixed::Finite(a), y: Fixed::Finite(b), z: Fixed::Finite(c) };
                let z = Vec3::zero();
                proof {
                    assert(v3_wf(np));
                    lemma_all_wf_update(self.pos@, i as int, np);
                }
                self.pos[i] = np;
                proof {
                    lemma_all_wf_update(self.vel@, i as int, z);
                }
                self.vel[i] = z;
            }
            let p = self.pos[i];
            let v = self.vel[i];
            let mut nv = v;
            match p.x {
                Fixed::Finite(px) => {
                    if px < params.x_min {
                        nv.x = fx_abs(v.x);
                    } else if px > params.x_max {
                        nv.x = fx_neg_abs(v.x);
                    }
                }
                Fixed::NonFinite => {}
            }
            match p.y {
                Fixed::Finite(py) => {
                    if py < params.y_min {
                        nv.y = fx_abs(v.y);
                    } else if py > params.y_max {
                        nv.y = fx_neg_abs(v.y);
                    }
                }
                Fixed::NonFinite => {}
            }
            match p.z {
                Fixed::Finite(pz) => {
                    if pz < params.z_min {
                        nv.z = fx_abs(v.z);
                    } else if pz > params.z_max {
                        nv.z = fx_neg_abs(v.z);
                    }
                }
                Fixed::NonFinite => {}
            }
            proof {
                assert(v3_wf(self.vel@[i as int]));
                assert(v3_wf(nv));
                lemma_all_wf_update(self.vel@, i as int, nv);
            }
            self.vel[i] = nv;
            proof {
                assert(nv == spec_reflect(p, v, *params));
                if spec_needs_reset(orig.pos[i as int], orig.vel[i as int],
                    params.speed_cap as int) {
                    assert(in_box(p, *params));
                    assert(v == spec_zero());
                    assert(nv == spec_zero());
                } else {
                    assert(p == orig.pos[i as int] && v == orig.vel[i as int]);
                }
            }
            i = i + 1;
        }
    }

    /// Advance the whole simulation by one timestep: fresh accelerations,
    /// drag, Euler integration of velocity then position, then boundary and
    /// stability recovery. The result is the deterministic Euler image of the
    /// old state, passed through one recovery pass.
    pub fn step(&mut self, params: &SimParams, dt: i64)
        requires
            old(self).wf(),
            params.wf(),
            0 <= dt <= FIX_MAX,
        ensures
            final(self).wf(),
            final(self)@.pos.len() == old(self)@.pos.len(),
            final(self)@.vel.len() == old(self)@.vel.len(),
            final(self)@.acc.len() == old(self)@.acc.len(),
            recover_ok(spec_advance(old(self)@, *params, dt as int), final(self)@, *params),
    {
        let ghost orig: StateView = self@;
        let ghost adv: StateView = spec_advance(orig, *params, dt as int);
        self.clear_accelerations();
        self.accumulate_gravity(params.g);
        self.apply_drag(params.drag);
        self.integrate_velocity(dt);
        self.integrate_position(dt);
        proof {
            assert(self@.acc =~= adv.acc);
            assert(self@.vel =~= adv.vel);
            assert(self@.pos =~= adv.pos);
            assert(self@ =~= adv);
        }
        self.boundary_check(params);
    }
}

/// Singularity safety: two coincident finite bodies exert a zero — in
/// particular finite — pull on each other, thanks to the distance clamp.
pub proof fn lemma_singularity_safety(p: Vec3, g: int)
    requires
        v3_finite(p),
        0 <= g <= FIX_MAX as int,
    ensures
        spec_pair_accel(p, p, g) == spec_zero(),
{
    let s2 = (SCALE as int) * (SCALE as int);
    let zero_d2: int = 0;
    assert(clamp_d2(zero_d2) == s2);
    lemma_sqrt_exists(s2);
    let dist = sqrt_floor(s2);
    assert(0 <= dist && dist * dist <= s2 && s2 < (dist + 1) * (dist + 1));
    assert(dist >= 1) by (nonlinear_arith)
        requires
            dist >= 0,
            s2 < (dist + 1) * (dist + 1),
            s2 == 1000000,
    ;
    let an = g * (SCALE as int) * (SCALE as int) / s2;
    assert(an * 0 == 0);
    assert(trunc_div(0, dist) == 0) by (nonlinear_arith)
        requires
            dist >= 1,
    ;
    assert(clip(0) == Fixed::Finite(0i64));
}

/// Reset property: a body whose velocity carries a non-finite component is
/// judged divergent, and recovery leaves it inside the box, exactly at rest.
pub proof fn lemma_reset_property(pre: StateView, post: StateView, prm: SimParams, i: int)
    requires
        recover_ok(pre, post, prm),
        0 <= i < pre.pos.len(),
        i < pre.vel.len(),
        !pre.vel[i].x.is_finite(),
    ensures
        in_box(post.pos[i], prm),
        post.vel[i] == spec_zero(),
{
    assert(fx_diverged(pre.vel[i].x, prm.speed_cap as int));
    assert(body_recovered(pre.pos[i], pre.vel[i], post.pos[i], post.vel[i], prm));
}

/// Reflective boundary property: a body below an axis minimum leaves
/// recovery with a non-negative velocity along that axis, and one above the
/// maximum with a non-positive velocity; symmetric on every axis.
pub proof fn lemma_reflective_boundary(pre: StateView, post: StateView, prm: SimParams, i: int)
    requires
        prm.wf(),
        recover_ok(pre, post, prm),
        0 <= i < pre.pos.len(),
        i < pre.vel.len(),
        !spec_needs_reset(pre.pos[i], pre.vel[i], prm.speed_cap as int),
    ensures
        (pre.pos[i].x matches Fixed::Finite(px) && (px as int) < prm.x_min as int) ==> (
        post.vel[i].x.is_finite() && post.vel[i].x.unwrap() >= 0),
        (pre.pos[i].x matches Fixed::Finite(px) && (px as int) > prm.x_max as int) ==> (
        post.vel[i].x.is_finite() && post.vel[i].x.unwrap() <= 0),
        (pre.pos[i].y matches Fixed::Finite(py) && (py as int) < prm.y_min as int) ==> (
        post.vel[i].y.is_finite() && post.vel[i].y.unwrap() >= 0),
        (pre.pos[i].y matches Fixed::Finite(py) && (py as int) > prm.y_max as int) ==> (
        post.vel[i].y.is_finite() && post.vel[i].y.unwrap() <= 0),
        (pre.pos[i].z matches Fixed::Finite(pz) && (pz as int) < prm.z_min as int) ==> (
        post.vel[i].z.is_finite() && post.vel[i].z.unwrap() >= 0),
        (pre.pos[i].z matches Fixed::Finite(pz) && (pz as int) > prm.z_max as int) ==> (
        post.vel[i].z.is_finite() && post.vel[i].z.unwrap() <= 0),
{
    assert(body_recovered(pre.pos[i], pre.vel[i], post.pos[i], post.vel[i], prm));
    assert(post.vel[i] == spec_reflect(pre.pos[i], pre.vel[i], prm));
    assert(!fx_diverged(pre.vel[i].x, prm.speed_cap as int));
    assert(!fx_diverged(pre.vel[i].y, prm.speed_cap as int));
    assert(!fx_diverged(pre.vel[i].z, prm.speed_cap as int));
}

/// Determinism: the Euler advance is a function of the state alone, and when
/// it leaves no body divergent, recovery leaves no freedom either, so any two
/// states a step may produce from the same input are equal.
pub proof fn lemma_step_deterministic(
    s: StateView,
    prm: SimParams,
    dt: int,
    post1: StateView,
    post2: StateView,
)
    requires
        forall|i: int|
            0 <= i < spec_advance(s, prm, dt).pos.len() ==> !spec_needs_reset(
                #[trigger] spec_advance(s, prm, dt).pos[i],
                spec_advance(s, prm, dt).vel[i],
                prm.speed_cap as int,
            ),
        recover_ok(spec_advance(s, prm, dt), post1, prm),
        recover_ok(spec_advance(s, prm, dt), post2, prm),
    ensures
        post1 == post2,
{
    let a = spec_advance(s, prm, dt);
    assert forall|i: int| 0 <= i < a.pos.len() implies post1.pos[i] == post2.pos[i] && post1.vel[i]
        == post2.vel[i] by {
        assert(body_recovered(a.pos[i], a.vel[i], post1.pos[i], post1.vel[i], prm));
        assert(body_recovered(a.pos[i], a.vel[i], post2.pos[i], post2.vel[i], prm));
    }
    assert(post1.pos =~= post2.pos);
    assert(post1.vel =~= post2.vel);
    assert(post1.acc =~= post2.acc);
    assert(post1 =~= post2);
}

/// The transition back to the stable state is immediate: after one recovery
/// pass no body is divergent any more, whether it was reset into the box at
/// rest or only had its velocity signs corrected.
pub proof fn lemma_recovery_restores_stability(
    pre: StateView,
    post: StateView,
    prm: SimParams,
    i: int,
)
    requires
        prm.wf(),
        recover_ok(pre, post, prm),
        0 <= i < pre.pos.len(),
        i < pre.vel.len(),
    ensures
        !spec_needs_reset(post.pos[i], post.vel[i], prm.speed_cap as int),
{
    assert(body_recovered(pre.pos[i], pre.vel[i], post.pos[i], post.vel[i], prm));
    if !spec_needs_reset(pre.pos[i], pre.vel[i], prm.speed_cap as int) {
        assert(post.vel[i] == spec_reflect(pre.pos[i], pre.vel[i], prm));
        assert(!fx_diverged(pre.vel[i].x, prm.speed_cap as int));
        assert(!fx_diverged(pre.vel[i].y, prm.speed_cap as int));
        assert(!fx_diverged(pre.vel[i].z, prm.speed_cap as int));
    }
}

pub open spec fn max_int(a: int, b: int) -> int {
    if a >= b {
        a
    } else {
        b
    }
}

/// The farthest any box wall lies from the origin.
pub open spec fn box_radius(prm: SimParams) -> int {
    max_int(
        max_int(
            max_int(abs_int(prm.x_min as int), abs_int(prm.x_max as int)),
            max_int(abs_int(prm.y_min as int), abs_int(prm.y_max as int)),
        ),
        max_int(abs_int(prm.z_min as int), abs_int(prm.z_max as int)),
    )
}

/// Every component is finite with magnitude at most `b`.
pub open spec fn v3_bounded(v: Vec3, b: int) -> bool {
    &&& v.x matches Fixed::Finite(x) && abs_int(x as int) <= b
    &&& v.y matches Fixed::Finite(y) && abs_int(y as int) <= b
    &&& v.z matches Fixed::Finite(z) && abs_int(z as int) <= b
}

/// Every vector of the sequence has only finite components.
pub open spec fn all_finite(s: Seq<Vec3>) -> bool {
    forall|i: int| 0 <= i < s.len() ==> v3_finite(#[trigger] s[i])
}

/// One signed ratio of the pairwise pull stays within the pull's magnitude.
proof fn lemma_component_bound(an: int, d: int, dist: int, g: int)
    requires
        0 <= an <= g,
        1 <= dist,
        abs_int(d) <= dist,
    ensures
        abs_int(trunc_div(an * d, dist)) <= g,
{
    crate::fixed::lemma_product_signs(an, d);
    let ad = abs_int(d);
    assert(0 <= ad);
    assert(an * ad <= an * dist) by (nonlinear_arith)
        requires
            0 <= an,
            0 <= ad,
            ad <= dist,
    ;
    assert(an * ad >= 0) by (nonlinear_arith)
        requires
            0 <= an,
            0 <= ad,
    ;
    lemma_div_le(an * ad, an, dist);
    if an * d >= 0 {
        assert(an * d == an * ad);
    } else {
        assert(-(an * d) == an * ad);
    }
}

/// The pull between two finite bodies is finite, each component of magnitude
/// at most `g`: the distance clamp caps the force law.
pub proof fn lemma_pair_accel_bounded(pi: Vec3, pj: Vec3, g: int)
    requires
        v3_finite(pi),
        v3_finite(pj),
        0 <= g <= FIX_MAX as int,
    ensures
        v3_bounded(spec_pair_accel(pi, pj, g), g),
{
    let dx = pj.x.unwrap() - pi.x.unwrap();
    let dy = pj.y.unwrap() - pi.y.unwrap();
    let dz = pj.z.unwrap() - pi.z.unwrap();
    let d2r = dx * dx + dy * dy + dz * dz;
    assert(dx * dx >= 0 && dy * dy >= 0 && dz * dz >= 0) by (nonlinear_arith);
    let d2 = clamp_d2(d2r);
    let s2 = (SCALE as int) * (SCALE as int);
    assert(d2 >= s2 && d2 >= d2r);
    let an = g * (SCALE as int) * (SCALE as int) / d2;
    assert(g * s2 >= 0 && g * s2 <= g * d2) by (nonlinear_arith)
        requires
            0 <= g,
            0 < s2 <= d2,
    ;
    lemma_div_le(g * s2, g, d2);
    assert(g * (SCALE as int) * (SCALE as int) == g * s2) by (nonlinear_arith)
        requires
            s2 == (SCALE as int) * (SCALE as int),
    ;
    assert(0 <= an <= g);
    lemma_sqrt_exists(d2);
    let dist = sqrt_floor(d2);
    assert(0 <= dist && dist * dist <= d2 && d2 < (dist + 1) * (dist + 1));
    assert(dist >= 1) by (nonlinear_arith)
        requires
            dist >= 0,
            d2 < (dist + 1) * (dist + 1),
            d2 >= 1000000,
    ;
    let adx = abs_int(dx);
    let ady = abs_int(dy);
    let adz = abs_int(dz);
    crate::fixed::lemma_product_signs(dx, dx);
    crate::fixed::lemma_product_signs(dy, dy);
    crate::fixed::lemma_product_signs(dz, dz);
    assert(adx * adx == dx * dx && ady * ady == dy * dy && adz * adz == dz * dz);
    assert(adx <= dist && ady <= dist && adz <= dist) by (nonlinear_arith)
        requires
            adx * adx <= d2,
            ady * ady <= d2,
            adz * adz <= d2,
            d2 < (dist + 1) * (dist + 1),
            dist >= 1,
            adx >= 0,
            ady >= 0,
            adz >= 0,
    ;
    lemma_component_bound(an, dx, dist, g);
    lemma_component_bound(an, dy, dist, g);
    lemma_component_bound(an, dz, dist, g);
}

/// A partial pairwise accumulation over `j` bodies is finite, each component
/// of magnitude at most `j * g`.
pub proof fn lemma_accum_bounded(pos: Seq<Vec3>, i: int, j: int, g: int)
    requires
        all_finite(pos),
        0 <= i < pos.len(),
        0 <= j <= pos.len(),
        0 <= g <= FIX_MAX as int,
        (pos.len() as int) * g <= FIX_MAX as int,
    ensures
        v3_bounded(spec_accum(pos, i, j, g), j * g),
    decreases j,
{
    assert(j * g <= (pos.len() as int) * g && (j - 1) * g + g == j * g && 0 <= (j - 1) * g + g)
        by (nonlinear_arith)
        requires
            0 <= j <= pos.len(),
            0 <= g,
    ;
    if j <= 0 {
    } else {
        lemma_accum_bounded(pos, i, j - 1, g);
        if j - 1 != i {
            lemma_pair_accel_bounded(pos[i], pos[j - 1], g);
        }
    }
}

/// Conservation sanity: from rest at finite in-box positions, one Euler
/// advance leaves every acceleration, velocity and position finite — no
/// analogue of a NaN or infinity appears anywhere.
pub proof fn lemma_conservation_sanity(s: StateView, prm: SimParams, dt: int)
    requires
        prm.wf(),
        s.pos.len() == s.vel.len(),
        forall|i: int| 0 <= i < s.pos.len() ==> in_box(#[trigger] s.pos[i], prm),
        forall|i: int| 0 <= i < s.vel.len() ==> #[trigger] s.vel[i] == spec_zero(),
        0 <= dt <= SCALE as int,
        box_radius(prm) + (s.pos.len() as int) * (prm.g as int) <= FIX_MAX as int,
    ensures
        forall|i: int|
            0 <= i < s.pos.len() ==> v3_finite(#[trigger] spec_advance(s, prm, dt).acc[i])
                && v3_finite(spec_advance(s, prm, dt).vel[i]) && v3_finite(
                spec_advance(s, prm, dt).pos[i],
            ),
{
    let n = s.pos.len() as int;
    let g = prm.g as int;
    let a = spec_advance(s, prm, dt);
    assert(box_radius(prm) >= 0);
    assert forall|k: int| 0 <= k < s.pos.len() implies v3_finite(#[trigger] s.pos[k]) by {
        assert(in_box(s.pos[k], prm));
    }
    assert forall|i: int|
        0 <= i < s.pos.len() implies v3_finite(#[trigger] a.acc[i]) && v3_finite(a.vel[i])
            && v3_finite(a.pos[i]) by {
        lemma_accum_bounded(s.pos, i, n, g);
        let acc0 = spec_accel(s.pos, i, g);
        assert(v3_bounded(acc0, n * g));
        assert(s.vel[i] == spec_zero());
        assert(0 * (prm.drag as int) == 0);
        assert(trunc_div(0, SCALE as int) == 0) by (nonlinear_arith)
            requires
                SCALE == 1000i64,
        ;
        let dragged = spec_drag(acc0, s.vel[i], prm.drag as int);
        assert(a.acc[i] == dragged);
        assert(v3_bounded(dragged, n * g));
        lemma_scale_bound(dragged.x.unwrap(), dt, n * g);
        lemma_scale_bound(dragged.y.unwrap(), dt, n * g);
        lemma_scale_bound(dragged.z.unwrap(), dt, n * g);
        let scaled = spec_v3_scale(dragged, dt);
        assert(v3_bounded(scaled, n * g));
        assert(a.vel[i] == spec_v3_add(s.vel[i], scaled));
        assert(v3_bounded(a.vel[i], n * g));
        lemma_scale_bound(a.vel[i].x.unwrap(), dt, n * g);
        lemma_scale_bound(a.vel[i].y.unwrap(), dt, n * g);
        lemma_scale_bound(a.vel[i].z.unwrap(), dt, n * g);
        let scaled2 = spec_v3_scale(a.vel[i], dt);
        assert(v3_bounded(scaled2, n * g));
        assert(in_box(s.pos[i], prm));
        assert(abs_int(s.pos[i].x.unwrap()) <= box_radius(prm));
        assert(abs_int(s.pos[i].y.unwrap()) <= box_radius(prm));
        assert(abs_int(s.pos[i].z.unwrap()) <= box_radius(prm));
        assert(a.pos[i] == spec_v3_add(s.pos[i], scaled2));
        assert(v3_bounded(a.pos[i], box_radius(prm) + n * g));
    }
}

/// Scaling a bounded value by a factor of at most one keeps it bounded.
proof fn lemma_scale_bound(x: int, k: int, b: int)
    requires
        abs_int(x) <= b,
        0 <= k <= SCALE as int,
    ensures
        abs_int(trunc_div(x * k, SCALE as int)) <= b,
{
    crate::fixed::lemma_product_signs(x, k);
    let ax = abs_int(x);
    assert(ax * k <= b * (SCALE as int) && ax * k >= 0) by (nonlinear_arith)
        requires
            0 <= ax <= b,
            0 <= k <= SCALE as int,
    ;
    lemma_div_le(ax * k, b, SCALE as int);
    if x * k >= 0 {
        assert(x * k == ax * k);
    } else {
        assert(-(x * k) == ax * k);
    }
}

} // verus!
