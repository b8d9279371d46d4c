//! Exact fixed-point scalars and the linear range mapper.
//!
//! Control values are carried as signed fixed-point numbers with six decimal
//! places. Inbound payloads are normalized, so a payload of one unit
//! (`FX_SCALE`) stands for the full travel of a physical control; the range
//! mapper rescales such a payload linearly into a configured output interval,
//! extrapolating (rather than clamping) when the payload lies outside the
//! normalized interval.

use vstd::prelude::*;

verus! {

/// Number of fixed-point steps that make up one unit: `Fx { units: FX_SCALE }`
/// stands for the real value 1.
pub const FX_SCALE: i64 = 1_000_000;

/// A signed fixed-point number with six decimal places: the value it stands
/// for is `units / FX_SCALE`.
#[derive(Clone, Copy, PartialEq, Eq, Structural, Debug)]
pub struct Fx {
    pub units: i64,
}

/// A pair of fixed-point numbers, used for two-dimensional controls.
#[derive(Clone, Copy, PartialEq, Eq, Structural, Debug)]
pub struct FxPair {
    pub x: Fx,
    pub y: Fx,
}

impl Fx {
    /// The fixed-point number standing for zero.
    pub open spec fn spec_zero() -> Fx {
        Fx { units: 0 }
    }

    /// The fixed-point number standing for one (a full normalized payload).
    pub open spec fn spec_one() -> Fx {
        Fx { units: FX_SCALE }
    }

    pub fn zero() -> (r: Fx)
        ensures
            r == Fx::spec_zero(),
    {
        Fx { units: 0 }
    }

    pub fn one() -> (r: Fx)
        ensures
            r == Fx::spec_one(),
    {
        Fx { units: FX_SCALE }
    }
}

impl FxPair {
    /// The origin pair, the documented default of two-dimensional getters.
    pub open spec fn spec_origin() -> FxPair {
        FxPair { x: Fx::spec_zero(), y: Fx::spec_zero() }
    }

    pub fn origin() -> (r: FxPair)
        ensures
            r == FxPair::spec_origin(),
    {
        FxPair { x: Fx { units: 0 }, y: Fx { units: 0 } }
    }
}

/// Integer division truncating toward zero (the rounding used by the range
/// mapper); meaningful for positive divisors.
pub open spec fn div_trunc(a: int, b: int) -> int {
    if a >= 0 {
        a / b
    } else {
        -((-a) / b)
    }
}

/// The exact mathematical result of rescaling the normalized payload `x` into
/// the interval from `lo` to `hi`: `lo + x * (hi - lo)` in fixed-point steps,
/// rounded toward zero in the last place. A payload of 0 gives exactly `lo`
/// and a payload of `FX_SCALE` gives exactly `hi`; payloads outside the
/// normalized interval extrapolate along the same line.
pub open spec fn remap_spec(x: int, lo: int, hi: int) -> int {
    lo + div_trunc(x * (hi - lo), FX_SCALE as int)
}

/// The nearest value representable in an `i64`.
pub open spec fn clamp_to_i64(v: int) -> int {
    if v < i64::MIN as int {
        i64::MIN as int
    } else if v > i64::MAX as int {
        i64::MAX as int
    } else {
        v
    }
}

/// The range mapper's result as a fixed-point value.
pub open spec fn remap_fx(x: Fx, lo: Fx, hi: Fx) -> Fx {
    Fx { units: clamp_to_i64(remap_spec(x.units as int, lo.units as int, hi.units as int)) as i64 }
}

/// Linear remap of the normalized payload `x` into the interval from `lo` to
/// `hi`. Exact whenever the mathematical result is representable; clamped to
/// the nearest representable value otherwise.
pub fn remap(x: Fx, lo: Fx, hi: Fx) -> (r: Fx)
    ensures
        r == remap_fx(x, lo, hi),
        r.units == clamp_to_i64(remap_spec(x.units as int, lo.units as int, hi.units as int)),
{
    let xi: i128 = x.units as i128;
    let d: i128 = (hi.units as i128) - (lo.units as i128);
    proof {
        assert(xi * d <= 0x8000_0000_0000_0000i128 as int * 0xffff_ffff_ffff_ffffi128 as int
            && xi * d >= -(0x8000_0000_0000_0000i128 as int * 0xffff_ffff_ffff_ffffi128 as int))
            by (nonlinear_arith)
            requires
                -0x8000_0000_0000_0000 <= xi as int <= 0x7fff_ffff_ffff_ffff,
                -0xffff_ffff_ffff_ffff <= d as int <= 0xffff_ffff_ffff_ffff,
        ;
    }
    let prod: i128 = xi * d;
    let neg: bool = prod < 0;
    let mag: u128 = if neg {
        (-prod) as u128
    } else {
        prod as u128
    };
    let q_mag: u128 = mag / (FX_SCALE as u128);
    proof {
        // mag / FX_SCALE is far below the magnitude bound of an i128
        vstd::arithmetic::div_mod::lemma_multiply_divide_le(
            mag as int,
            FX_SCALE as int,
            0x1_0000_0000_0000_0000_0000_0000_0000_0000int / (FX_SCALE as int) + 1,
        );
    }
    let q: i128 = if neg {
        -(q_mag as i128)
    } else {
        q_mag as i128
    };
    assert(q == div_trunc(prod as int, FX_SCALE as int));
    let r128: i128 = (lo.units as i128) + q;
    let r_units: i64 = if r128 > 0x7fff_ffff_ffff_ffffi128 {
        0x7fff_ffff_ffff_ffffi64
    } else if r128 < -0x8000_0000_0000_0000i128 {
        -0x8000_0000_0000_0000i64
    } else {
        r128 as i64
    };
    Fx { units: r_units }
}

/// Law: the range mapper is exact at the endpoints of the normalized
/// interval. A payload of zero yields the lower bound and a payload of one
/// full unit yields the upper bound, whatever the configured interval.
pub proof fn lemma_remap_endpoints(lo: int, hi: int)
    requires
        i64::MIN as int <= lo <= i64::MAX as int,
        i64::MIN as int <= hi <= i64::MAX as int,
    ensures
        clamp_to_i64(remap_spec(0, lo, hi)) == lo,
        clamp_to_i64(remap_spec(FX_SCALE as int, lo, hi)) == hi,
{
    let d = hi - lo;
    vstd::arithmetic::div_mod::lemma_div_of0(FX_SCALE as int);
    assert(remap_spec(0, lo, hi) == lo);
    assert(FX_SCALE as int * d == (FX_SCALE as int) * d);
    if d >= 0 {
        vstd::arithmetic::mul::lemma_mul_nonnegative(FX_SCALE as int, d);
        vstd::arithmetic::div_mod::lemma_div_multiples_vanish(d, FX_SCALE as int);
        assert(div_trunc(FX_SCALE as int * d, FX_SCALE as int) == d);
    } else {
        assert((FX_SCALE as int) * d < 0) by (nonlinear_arith)
            requires
                d < 0,
        ;
        assert(-((FX_SCALE as int) * d) == (FX_SCALE as int) * (-d)) by (nonlinear_arith);
        vstd::arithmetic::div_mod::lemma_div_multiples_vanish(-d, FX_SCALE as int);
        assert(div_trunc(FX_SCALE as int * d, FX_SCALE as int) == d);
    }
    assert(remap_spec(FX_SCALE as int, lo, hi) == hi);
}

} // verus!
