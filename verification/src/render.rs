use vstd::prelude::*;

use crate::fixed::SCALE;
use crate::fixed::abs_int;
use crate::fixed::div_trunc_i64;
use crate::fixed::trunc_div;
use crate::vec3::Vec3;
use crate::vec3::v3_finite;

verus! {

/// Largest coordinate magnitude the screen projection accepts: far beyond
/// the box, so a body that drifts out for a frame can still be drawn.
pub const PROJECT_LIMIT: i64 = 1_000_000_000;

/// Horizontal pixel of the isometric projection,
/// `0.866 * (-x + y) * 0.005 * w + w / 2`, in fixed-point arithmetic.
pub open spec fn spec_project_u(p: Vec3, w: int) -> int {
    trunc_div(866 * (p.y.unwrap() - p.x.unwrap()) * w, 200000 * (SCALE as int)) + w / 2
}

/// Vertical pixel of the isometric projection,
/// `(0.5 * (x + y) - z) * 0.005 * h + h / 2`, in fixed-point arithmetic.
pub open spec fn spec_project_v(p: Vec3, h: int) -> int {
    trunc_div((p.x.unwrap() + p.y.unwrap() - 2 * p.z.unwrap()) * h, 400 * (SCALE as int)) + h / 2
}

/// Project a body onto an isometric `w` by `h` pixel window.
pub fn project(p: &Vec3, w: u32, h: u32) -> (uv: (i32, i32))
    requires
        v3_finite(*p),
        abs_int(p.x.unwrap()) <= PROJECT_LIMIT as int,
        abs_int(p.y.unwrap()) <= PROJECT_LIMIT as int,
        abs_int(p.z.unwrap()) <= PROJECT_LIMIT as int,
        0 < w <= 10000,
        0 < h <= 10000,
    ensures
        uv.0 as int == spec_project_u(*p, w as int),
        uv.1 as int == spec_project_v(*p, h as int),
{
    let px = p.x.value();
    let py = p.y.value();
    let pz = p.z.value();
    let a: i64 = py - px;
    let b: i64 = 866 * a;
    proof {
        assert((b as int) * (w as int) <= 17_320_000_000_000_000 && (b as int) * (w as int)
            >= -17_320_000_000_000_000) by (nonlinear_arith)
            requires
                -1_732_000_000_000 <= b as int <= 1_732_000_000_000,
                0 < w as int <= 10000,
        ;
    }
    let num_u: i64 = b * (w as i64);
    proof {
        assert(200_000_000i64 as int == 200000 * (SCALE as int));
    }
    let du: i64 = div_trunc_i64(num_u, 200_000_000);
    proof {
        assert(abs_int(num_u as int) / 200_000_000 <= 86_600_000) by (nonlinear_arith)
            requires
                0 <= abs_int(num_u as int) <= 17_320_000_000_000_000,
        ;
    }
    let u: i32 = (du + ((w / 2) as i64)) as i32;
    let c: i64 = px + py - 2 * pz;
    proof {
        assert((c as int) * (h as int) <= 40_000_000_000_000 && (c as int) * (h as int)
            >= -40_000_000_000_000) by (nonlinear_arith)
            requires
                -4_000_000_000 <= c as int <= 4_000_000_000,
                0 < h as int <= 10000,
        ;
    }
    let num_v: i64 = c * (h as i64);
    proof {
        assert(400_000i64 as int == 400 * (SCALE as int));
    }
    let dv: i64 = div_trunc_i64(num_v, 400_000);
    proof {
        assert(abs_int(num_v as int) / 400_000 <= 100_000_000) by (nonlinear_arith)
            requires
                0 <= abs_int(num_v as int) <= 40_000_000_000_000,
        ;
    }
    let v: i32 = (dv + ((h / 2) as i64)) as i32;
    (u, v)
}

} // verus!
