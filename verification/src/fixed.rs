use vstd::prelude::*;

verus! {

/// Number of fixed-point sub-units per simulation-space unit.
pub const SCALE: i64 = 1000;

/// Largest magnitude a finite fixed-point value may carry.
pub const FIX_MAX: i64 = 1_000_000_000_000;

/// A fixed-point scalar: `Finite(v)` stands for the real number `v / SCALE`;
/// `NonFinite` stands for any value that left the representable range, the
/// role NaN and the infinities play for floating point.
#[derive(Clone, Copy, PartialEq, Eq, Structural, Debug)]
pub enum Fixed {
    Finite(i64),
    NonFinite,
}

pub open spec fn in_range(v: int) -> bool {
    -(FIX_MAX as int) <= v && v <= FIX_MAX as int
}

/// Round an unbounded integer result back into the scalar type: out-of-range
/// results are lost to `NonFinite`, as a float overflows to an infinity.
pub open spec fn clip(v: int) -> Fixed {
    if in_range(v) {
        Fixed::Finite(v as i64)
    } else {
        Fixed::NonFinite
    }
}

/// Every `Finite` payload a library operation produces lies within range.
pub open spec fn fx_wf(a: Fixed) -> bool {
    match a {
        Fixed::Finite(v) => in_range(v as int),
        Fixed::NonFinite => true,
    }
}

pub open spec fn abs_int(v: int) -> int {
    if v >= 0 {
        v
    } else {
        -v
    }
}

/// Integer division rounding toward zero, the direction machine division takes.
pub open spec fn trunc_div(n: int, d: int) -> int
    recommends
        d > 0,
{
    if n >= 0 {
        n / d
    } else {
        -((-n) / d)
    }
}

pub open spec fn spec_add(a: Fixed, b: Fixed) -> Fixed {
    match (a, b) {
        (Fixed::Finite(x), Fixed::Finite(y)) => clip(x + y),
        _ => Fixed::NonFinite,
    }
}

pub open spec fn spec_sub(a: Fixed, b: Fixed) -> Fixed {
    match (a, b) {
        (Fixed::Finite(x), Fixed::Finite(y)) => clip(x - y),
        _ => Fixed::NonFinite,
    }
}

/// Product of a scalar with a fixed-point factor `k`: the doubled scale is
/// divided back out, rounding toward zero.
pub open spec fn spec_scale(a: Fixed, k: int) -> Fixed {
    match a {
        Fixed::Finite(x) => clip(trunc_div(x * k, SCALE as int)),
        Fixed::NonFinite => Fixed::NonFinite,
    }
}

pub open spec fn spec_abs(a: Fixed) -> Fixed {
    match a {
        Fixed::Finite(x) => clip(abs_int(x as int)),
        Fixed::NonFinite => Fixed::NonFinite,
    }
}

pub open spec fn spec_neg_abs(a: Fixed) -> Fixed {
    match a {
        Fixed::Finite(x) => clip(-abs_int(x as int)),
        Fixed::NonFinite => Fixed::NonFinite,
    }
}

impl Fixed {
    pub open spec fn is_finite(self) -> bool {
        self is Finite
    }

    pub open spec fn unwrap(self) -> int
        recommends
            self is Finite,
    {
        self->Finite_0 as int
    }

    /// The raw payload of a finite scalar.
    pub fn value(self) -> (r: i64)
        requires
            self is Finite,
        ensures
            r as int == self.unwrap(),
    {
        match self {
            Fixed::Finite(v) => v,
            Fixed::NonFinite => 0,
        }
    }
}

pub fn abs_u64(x: i64) -> (r: u64)
    ensures
        r as int == abs_int(x as int),
{
    if x >= 0 {
        x as u64
    } else {
        (-(x as i128)) as u64
    }
}

pub fn fx_add(a: Fixed, b: Fixed) -> (r: Fixed)
    ensures
        r == spec_add(a, b),
        fx_wf(r),
{
    match (a, b) {
        (Fixed::Finite(x), Fixed::Finite(y)) => {
            let s: i128 = x as i128 + y as i128;
            if -(FIX_MAX as i128) <= s && s <= FIX_MAX as i128 {
                Fixed::Finite(s as i64)
            } else {
                Fixed::NonFinite
            }
        }
        _ => Fixed::NonFinite,
    }
}

pub fn fx_sub(a: Fixed, b: Fixed) -> (r: Fixed)
    ensures
        r == spec_sub(a, b),
        fx_wf(r),
{
    match (a, b) {
        (Fixed::Finite(x), Fixed::Finite(y)) => {
            let s: i128 = x as i128 - y as i128;
            if -(FIX_MAX as i128) <= s && s <= FIX_MAX as i128 {
                Fixed::Finite(s as i64)
            } else {
                Fixed::NonFinite
            }
        }
        _ => Fixed::NonFinite,
    }
}

pub proof fn lemma_product_signs(x: int, k: int)
    ensures
        abs_int(x * k) == abs_int(x) * abs_int(k),
        ((x < 0) != (k < 0)) ==> x * k <= 0,
        !((x < 0) != (k < 0)) ==> x * k >= 0,
{
    assert(abs_int(x * k) == abs_int(x) * abs_int(k)
        && (((x < 0) != (k < 0)) ==> x * k <= 0)
        && (!((x < 0) != (k < 0)) ==> x * k >= 0)) by (nonlinear_arith);
}

pub fn fx_scale(a: Fixed, k: i64) -> (r: Fixed)
    ensures
        r == spec_scale(a, k as int),
        fx_wf(r),
{
    match a {
        Fixed::Finite(x) => {
            let neg: bool = (x < 0) != (k < 0);
            let ax: u128 = abs_u64(x) as u128;
            let ak: u128 = abs_u64(k) as u128;
            proof {
                assert(ax * ak <= 0xffffffffffffffffu128 * 0xffffffffffffffffu128)
                    by (nonlinear_arith)
                    requires
                        ax <= 0xffffffffffffffffu128,
                        ak <= 0xffffffffffffffffu128,
                ;
            }
            let m: u128 = (ax * ak) / (SCALE as u128);
            proof {
                lemma_product_signs(x as int, k as int);
                if x as int * k as int >= 0 {
                    assert(trunc_div(x as int * k as int, SCALE as int) == m as int);
                } else {
                    assert(trunc_div(x as int * k as int, SCALE as int) == -(m as int));
                }
            }
            if m > FIX_MAX as u128 {
                Fixed::NonFinite
            } else if neg {
                Fixed::Finite(-(m as i64))
            } else {
                Fixed::Finite(m as i64)
            }
        }
        Fixed::NonFinite => Fixed::NonFinite,
    }
}

/// Signed division rounding toward zero, as machine division does.
pub fn div_trunc_i64(n: i64, d: i64) -> (r: i64)
    requires
        d > 0,
        n > i64::MIN,
    ensures
        r as int == trunc_div(n as int, d as int),
        abs_int(r as int) == abs_int(n as int) / (d as int),
{
    if n >= 0 {
        let q: u64 = (n as u64) / (d as u64);
        q as i64
    } else {
        let m: u64 = (-(n as i128)) as u64;
        let q: u64 = m / (d as u64);
        proof {
            assert(m / (d as u64) <= m) by (nonlinear_arith)
                requires
                    d >= 1,
            ;
        }
        -(q as i64)
    }
}

pub fn fx_abs(a: Fixed) -> (r: Fixed)
    requires
        fx_wf(a),
    ensures
        r == spec_abs(a),
        fx_wf(r),
{
    match a {
        Fixed::Finite(x) => Fixed::Finite(abs_u64(x) as i64),
        Fixed::NonFinite => Fixed::NonFinite,
    }
}

pub fn fx_neg_abs(a: Fixed) -> (r: Fixed)
    requires
        fx_wf(a),
    ensures
        r == spec_neg_abs(a),
        fx_wf(r),
{
    match a {
        Fixed::Finite(x) => Fixed::Finite(-(abs_u64(x) as i64)),
        Fixed::NonFinite => Fixed::NonFinite,
    }
}

} // verus!
