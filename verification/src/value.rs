//! The animatable value: a vector-space quantity of up to four fixed-point
//! lanes (a scalar, a 2/3/4-component vector, or a four-channel color).
//!
//! The integrator needs only a minimal algebraic capability set from its
//! values: addition, subtraction, scaling by a scalar, division by a scalar,
//! and a zero element. All of them act lane by lane; `dim` records how many
//! lanes carry meaning and doubles as the value's type tag when values are
//! routed between records.
use vstd::prelude::*;
use crate::fx::fx_add;
use crate::fx::fx_sub;
use crate::fx::fx_mul;
use crate::fx::fx_div;
use crate::fx::fx_clip;
use crate::fx::fx_in_range;
use crate::fx::fadd;
use crate::fx::fsub;
use crate::fx::fmul;
use crate::fx::fdiv;

verus! {

/// A value that the filter can animate: up to four fixed-point lanes.
/// The constructors zero the lanes at and past `dim`, and the lanewise
/// operations keep zero lanes zero, so unused lanes stay inert.
#[derive(Clone, Copy, PartialEq, Eq, Structural, Debug)]
pub struct AnimValue {
    pub x: i64,
    pub y: i64,
    pub z: i64,
    pub w: i64,
    pub dim: u8,
}

/// Lanewise saturating sum; the left operand's `dim` is kept.
pub open spec fn spec_vadd(a: AnimValue, b: AnimValue) -> AnimValue {
    AnimValue {
        x: fx_add(a.x as int, b.x as int) as i64,
        y: fx_add(a.y as int, b.y as int) as i64,
        z: fx_add(a.z as int, b.z as int) as i64,
        w: fx_add(a.w as int, b.w as int) as i64,
        dim: a.dim,
    }
}

/// Lanewise saturating difference; the left operand's `dim` is kept.
pub open spec fn spec_vsub(a: AnimValue, b: AnimValue) -> AnimValue {
    AnimValue {
        x: fx_sub(a.x as int, b.x as int) as i64,
        y: fx_sub(a.y as int, b.y as int) as i64,
        z: fx_sub(a.z as int, b.z as int) as i64,
        w: fx_sub(a.w as int, b.w as int) as i64,
        dim: a.dim,
    }
}

/// Every lane multiplied by the scalar `s`.
pub open spec fn spec_vscale(a: AnimValue, s: int) -> AnimValue {
    AnimValue {
        x: fx_mul(a.x as int, s) as i64,
        y: fx_mul(a.y as int, s) as i64,
        z: fx_mul(a.z as int, s) as i64,
        w: fx_mul(a.w as int, s) as i64,
        dim: a.dim,
    }
}

/// Every lane divided by the scalar `s` (meaningful for `s != 0`).
pub open spec fn spec_vdiv(a: AnimValue, s: int) -> AnimValue {
    AnimValue {
        x: fx_div(a.x as int, s) as i64,
        y: fx_div(a.y as int, s) as i64,
        z: fx_div(a.z as int, s) as i64,
        w: fx_div(a.w as int, s) as i64,
        dim: a.dim,
    }
}

/// The zero element with `dim` meaningful lanes.
pub open spec fn spec_vzero(dim: u8) -> AnimValue {
    AnimValue { x: 0, y: 0, z: 0, w: 0, dim: dim }
}

impl AnimValue {
    /// All lanes saturated into the representable range, so that every
    /// operation on well-formed values is exact up to its own rounding.
    pub open spec fn wf(&self) -> bool {
        &&& fx_in_range(self.x as int)
        &&& fx_in_range(self.y as int)
        &&& fx_in_range(self.z as int)
        &&& fx_in_range(self.w as int)
        &&& 1 <= self.dim <= 4
    }

    /// The zero element with `dim` meaningful lanes.
    pub fn zero(dim: u8) -> (r: Self)
        requires
            1 <= dim <= 4,
        ensures
            r == spec_vzero(dim),
            r.wf(),
    {
        AnimValue { x: 0, y: 0, z: 0, w: 0, dim }
    }

    /// A one-lane (scalar) value.
    pub fn scalar(a: i64) -> (r: Self)
        ensures
            r == (AnimValue { x: fx_clip(a as int) as i64, y: 0, z: 0, w: 0, dim: 1 }),
            r.wf(),
    {
        AnimValue { x: crate::fx::fclip(a), y: 0, z: 0, w: 0, dim: 1 }
    }

    /// A two-lane value.
    pub fn vec2(a: i64, b: i64) -> (r: Self)
        ensures
            r == (AnimValue {
                x: fx_clip(a as int) as i64,
                y: fx_clip(b as int) as i64,
                z: 0,
                w: 0,
                dim: 2,
            }),
            r.wf(),
    {
        AnimValue {
            x: crate::fx::fclip(a),
            y: crate::fx::fclip(b),
            z: 0,
            w: 0,
            dim: 2,
        }
    }

    /// A three-lane value.
    pub fn vec3(a: i64, b: i64, c: i64) -> (r: Self)
        ensures
            r == (AnimValue {
                x: fx_clip(a as int) as i64,
                y: fx_clip(b as int) as i64,
                z: fx_clip(c as int) as i64,
                w: 0,
                dim: 3,
            }),
            r.wf(),
    {
        AnimValue {
            x: crate::fx::fclip(a),
            y: crate::fx::fclip(b),
            z: crate::fx::fclip(c),
            w: 0,
            dim: 3,
        }
    }

    /// A four-lane value.
    pub fn vec4(a: i64, b: i64, c: i64, d: i64) -> (r: Self)
        ensures
            r == (AnimValue {
                x: fx_clip(a as int) as i64,
                y: fx_clip(b as int) as i64,
                z: fx_clip(c as int) as i64,
                w: fx_clip(d as int) as i64,
                dim: 4,
            }),
            r.wf(),
    {
        AnimValue {
            x: crate::fx::fclip(a),
            y: crate::fx::fclip(b),
            z: crate::fx::fclip(c),
            w: crate::fx::fclip(d),
            dim: 4,
        }
    }

    /// Lanewise saturating sum.
    pub fn vadd(&self, other: &Self) -> (r: Self)
        ensures
            r == spec_vadd(*self, *other),
            1 <= self.dim <= 4 ==> r.wf(),
    {
        AnimValue {
            x: fadd(self.x, other.x),
            y: fadd(self.y, other.y),
            z: fadd(self.z, other.z),
            w: fadd(self.w, other.w),
            dim: self.dim,
        }
    }

    /// Lanewise saturating difference.
    pub fn vsub(&self, other: &Self) -> (r: Self)
        ensures
            r == spec_vsub(*self, *other),
            1 <= self.dim <= 4 ==> r.wf(),
    {
        AnimValue {
            x: fsub(self.x, other.x),
            y: fsub(self.y, other.y),
            z: fsub(self.z, other.z),
            w: fsub(self.w, other.w),
            dim: self.dim,
        }
    }

    /// Every lane multiplied by the scalar `s`.
    pub fn vscale(&self, s: i64) -> (r: Self)
        ensures
            r == spec_vscale(*self, s as int),
            1 <= self.dim <= 4 ==> r.wf(),
    {
        AnimValue {
            x: fmul(self.x, s),
            y: fmul(self.y, s),
            z: fmul(self.z, s),
            w: fmul(self.w, s),
            dim: self.dim,
        }
    }

    /// Every lane divided by the scalar `s`.
    pub fn vdiv(&self, s: i64) -> (r: Self)
        requires
            s != 0,
        ensures
            r == spec_vdiv(*self, s as int),
            1 <= self.dim <= 4 ==> r.wf(),
    {
        AnimValue {
            x: fdiv(self.x, s),
            y: fdiv(self.y, s),
            z: fdiv(self.z, s),
            w: fdiv(self.w, s),
            dim: self.dim,
        }
    }
}

} // verus!
