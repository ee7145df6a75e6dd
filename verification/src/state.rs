//! The filter state and its three integration strategies.
//!
//! A `DynamicsState` tracks a target value with a second-order linear system:
//! it keeps the current value and its rate of change, and advances them one
//! semi-implicit Euler step per tick. The three tick variants differ only in
//! which `(k1, k2)` coefficients they feed into the shared step: the raw
//! ones (Simple), a clamped `k2` that stays integrable at any step size
//! (Stable), or coefficients matched to the poles of the continuous system
//! when it is fast relative to the frame rate (Pole-Matching).
use vstd::prelude::*;
use crate::fx::FX_ONE;
use crate::fx::FX_TWO;
use crate::fx::FX_PI;
use crate::fx::FX_TWO_PI;
use crate::fx::FX_MAX;
use crate::fx::FX_SCALE;
use crate::fx::fx_abs;
use crate::fx::fx_add;
use crate::fx::fx_sub;
use crate::fx::fx_neg;
use crate::fx::fx_mul;
use crate::fx::fx_div;
use crate::fx::fx_divn;
use crate::fx::fx_max2;
use crate::fx::fx_sqrt;
use crate::fx::fx_exp;
use crate::fx::fx_cos;
use crate::fx::fx_cosh;
use crate::fx::fx_in_range;
use crate::fx::fadd;
use crate::fx::fmul;
use crate::fx::fsub;
use crate::fx::fdiv;
use crate::fx::fdivn;
use crate::fx::fmax;
use crate::fx::fneg;
use crate::fx::fabs;
use crate::fx::fsqrt;
use crate::fx::fexp;
use crate::fx::fcos;
use crate::fx::fcosh;
use crate::fx::lemma_fx_mul_nonneg;
use crate::value::AnimValue;
use crate::value::spec_vadd;
use crate::value::spec_vsub;
use crate::value::spec_vscale;
use crate::value::spec_vdiv;
use crate::value::spec_vzero;

verus! {

/// Smallest accepted frequency, 2^-16 Hz in fixed point. Below it the
/// derived coefficients would truncate to zero and the integrator would
/// divide by zero. A non-positive frequency is a caller contract
/// violation, never recovered internally; this floor is its
/// machine-precision form, and callers reject or clamp before deriving.
pub const FX_MIN_FREQ: i64 = 65536;

/// The angular frequency `w = 2 * pi * frequency`.
pub open spec fn spec_w(f: int) -> int {
    fx_mul(FX_TWO_PI as int, f)
}

/// The damped frequency `d = w * sqrt(|z^2 - 1|)`, used by the
/// pole-matching fast path.
pub open spec fn spec_d(f: int, z: int) -> int {
    fx_mul(spec_w(f), fx_sqrt(fx_abs(fx_sub(fx_mul(z, z), FX_ONE as int))))
}

/// The rate-feedback coefficient `k1 = z / (pi * f)`.
pub open spec fn spec_k1(f: int, z: int) -> int {
    fx_div(z, fx_mul(FX_PI as int, f))
}

/// The response-time coefficient `k2 = 1 / w^2`.
pub open spec fn spec_k2(f: int) -> int {
    fx_div(FX_ONE as int, fx_mul(spec_w(f), spec_w(f)))
}

/// The anticipation coefficient `k3 = z * r / w`.
pub open spec fn spec_k3(f: int, z: int, r: int) -> int {
    fx_div(fx_mul(z, r), spec_w(f))
}

/// The derived coefficients of one filter instance, computed once from the
/// three physically meaningful knobs: natural frequency, damping ratio and
/// response factor.
#[derive(Clone, Copy, PartialEq, Eq, Structural, Debug)]
pub struct DynamicsParams {
    pub k1: i64,
    pub k2: i64,
    pub k3: i64,
    pub w: i64,
    pub z: i64,
    pub d: i64,
}

impl DynamicsParams {
    /// What `new` establishes and every tick relies on: the coefficients
    /// that stand as divisors are positive, and the signs that the
    /// pole-matching branch needs are settled.
    pub open spec fn wf(&self) -> bool {
        &&& self.k2 >= 1
        &&& self.w >= 1
        &&& self.k1 >= 0
        &&& self.z >= 0
        &&& self.d >= 0
    }

    /// Derive the six coefficients from frequency (in Hz), damping ratio
    /// and response factor, all fixed-point:
    /// `w = 2*pi*f`, `z = damping`, `d = w * sqrt(|z^2 - 1|)`,
    /// `k1 = damping / (pi*f)`, `k2 = 1 / w^2`, `k3 = damping * response / w`.
    pub fn new(frequency: i64, damping: i64, response: i64) -> (r: Self)
        requires
            FX_MIN_FREQ <= frequency,
            0 <= damping,
        ensures
            r.w as int == spec_w(frequency as int),
            r.z == damping,
            r.d as int == spec_d(frequency as int, damping as int),
            r.k1 as int == spec_k1(frequency as int, damping as int),
            r.k2 as int == spec_k2(frequency as int),
            r.k3 as int == spec_k3(frequency as int, damping as int, response as int),
            r.wf(),
    {
        let w: i64 = fmul(FX_TWO_PI, frequency);
        proof {
            crate::fx::lemma_fx_mul_lower(
                FX_TWO_PI as int,
                frequency as int,
                FX_TWO_PI as int,
                FX_MIN_FREQ as int,
            );
        }
        assert(w >= 411774);
        let pif: i64 = fmul(FX_PI, frequency);
        proof {
            crate::fx::lemma_fx_mul_lower(
                FX_PI as int,
                frequency as int,
                FX_PI as int,
                FX_MIN_FREQ as int,
            );
        }
        assert(pif >= 205887);
        let ww: i64 = fmul(w, w);
        proof {
            crate::fx::lemma_fx_mul_lower(w as int, w as int, 411774, 411774);
        }
        assert(ww >= 39);
        let k2: i64 = fdiv(FX_ONE, ww);
        proof {
            vstd::arithmetic::div_mod::lemma_div_is_ordered_by_denominator(
                (FX_ONE as int) * (FX_SCALE as int),
                ww as int,
                FX_MAX as int,
            );
        }
        assert(k2 >= 1);
        let zz: i64 = fmul(damping, damping);
        let s: i64 = fsqrt(fabs(fadd(zz, -FX_ONE)));
        let d: i64 = fmul(w, s);
        proof {
            lemma_fx_mul_nonneg(w as int, s as int);
        }
        let k1: i64 = fdiv(damping, pif);
        proof {
            lemma_fx_div_nonneg(damping as int, pif as int);
        }
        let k3: i64 = fdiv(fmul(damping, response), w);
        DynamicsParams { k1, k2, k3, w, z: damping, d }
    }

    /// Critically damped parameters with no anticipation: damping ratio 1,
    /// response factor 0. The sensible default.
    pub fn smooth_damp(frequency: i64) -> (r: Self)
        requires
            FX_MIN_FREQ <= frequency,
        ensures
            r.w as int == spec_w(frequency as int),
            r.z == FX_ONE,
            r.d as int == spec_d(frequency as int, FX_ONE as int),
            r.k1 as int == spec_k1(frequency as int, FX_ONE as int),
            r.k2 as int == spec_k2(frequency as int),
            r.k3 as int == spec_k3(frequency as int, FX_ONE as int, 0),
            r.wf(),
    {
        Self::new(frequency, FX_ONE, 0)
    }
}

impl Default for DynamicsParams {
    /// Critically damped parameters at 1 Hz.
    fn default() -> (r: Self)
        ensures
            r.w as int == spec_w(FX_ONE as int),
            r.z == FX_ONE,
            r.d as int == spec_d(FX_ONE as int, FX_ONE as int),
            r.k1 as int == spec_k1(FX_ONE as int, FX_ONE as int),
            r.k2 as int == spec_k2(FX_ONE as int),
            r.k3 as int == spec_k3(FX_ONE as int, FX_ONE as int, 0),
            r.wf(),
    {
        Self::smooth_damp(FX_ONE)
    }
}

/// A quotient of nonnegative by positive is nonnegative.
proof fn lemma_fx_div_nonneg(a: int, b: int)
    requires
        a >= 0,
        b > 0,
    ensures
        fx_div(a, b) >= 0,
{
    vstd::arithmetic::mul::lemma_mul_nonnegative(fx_abs(a), FX_SCALE as int);
    vstd::arithmetic::div_mod::lemma_div_pos_is_pos(fx_abs(a) * (FX_SCALE as int), fx_abs(b));
}

/// Which integration strategy a filter runs, chosen per filter at
/// creation time.
#[derive(Clone, Copy, PartialEq, Eq, Structural, Debug, Hash)]
pub enum TickMode {
    Simple,
    Stable,
    PoleMatching,
}

impl Default for TickMode {
    /// Stable is the default: bounded at any step size.
    fn default() -> (r: Self)
        ensures
            r == TickMode::Stable,
    {
        TickMode::Stable
    }
}

/// The animatable unit: the externally supplied goal value and the
/// integrator's persistent state, together with the derived parameters.
#[derive(Clone, Copy, PartialEq, Eq, Structural, Debug)]
pub struct DynamicsState {
    pub target: AnimValue,
    pub prev_target: AnimValue,
    pub current: AnimValue,
    pub d_current: AnimValue,
    pub params: DynamicsParams,
}

/// The target derivative fed into a step: the explicitly supplied one, or
/// the estimate `(target - prev_target) / dt`.
pub open spec fn spec_d_target(s: DynamicsState, dt: int, d_target: Option<AnimValue>) -> AnimValue {
    match d_target {
        Some(v) => v,
        None => spec_vdiv(spec_vsub(s.target, s.prev_target), dt),
    }
}

/// One shared semi-implicit Euler step with coefficients `(k1, k2, k3)`:
/// ```text
/// d_target    = explicit or (target - prev_target) / dt
/// prev_target = target
/// current     = current + d_current * dt
/// d_current   = d_current
///             + (target + d_target*k3 - current - d_current*k1) / k2 * dt
/// ```
/// where `current` inside the last line is the freshly advanced one.
pub open spec fn spec_tick(
    s: DynamicsState,
    dt: int,
    d_target: Option<AnimValue>,
    k1: int,
    k2: int,
    k3: int,
) -> DynamicsState {
    let dtg = spec_d_target(s, dt, d_target);
    let ncur = spec_vadd(s.current, spec_vscale(s.d_current, dt));
    let ndc = spec_vadd(
        s.d_current,
        spec_vscale(
            spec_vdiv(
                spec_vsub(
                    spec_vsub(spec_vadd(s.target, spec_vscale(dtg, k3)), ncur),
                    spec_vscale(s.d_current, k1),
                ),
                k2,
            ),
            dt,
        ),
    );
    DynamicsState {
        target: s.target,
        prev_target: s.target,
        current: ncur,
        d_current: ndc,
        params: s.params,
    }
}

/// The clamp of the Stable strategy:
/// `k2' = max(k2, k1*dt, (dt^2 + k1*dt) / 2)`. It keeps the implicit
/// oscillation of the integrator under the Nyquist limit of the frame
/// rate, so the step stays bounded for any `dt > 0`.
pub open spec fn spec_stable_k2(k1: int, k2: int, dt: int) -> int {
    fx_max2(fx_max2(k2, fx_mul(dt, k1)), fx_divn(fx_add(fx_mul(dt, dt), fx_mul(k1, dt)), 2))
}

/// The `(k1, k2)` pair the Pole-Matching strategy feeds into the shared
/// step. When the system is slow relative to the frame rate (`w*dt < z`)
/// it is the Stable clamp; otherwise the discrete-time poles of the
/// continuous system are matched exactly:
/// ```text
/// t1    = exp(-z*w*dt)
/// alpha = 2*t1*cos(d*dt)   for z <= 1, cosh otherwise
/// beta  = t1^2
/// t2    = dt / (beta - alpha + 1)
/// k1'   = t2 * (1 - beta)
/// k2'   = t2 * dt
/// ```
/// Where the fixed-point `beta - alpha + 1` or `k2'` rounds to zero or
/// below, the Stable clamp stands in: those are the degenerate corners in
/// which the matched coefficients are no longer usable as divisors.
pub open spec fn spec_pole_coeffs(p: DynamicsParams, dt: int) -> (int, int) {
    let k1 = p.k1 as int;
    let k2 = p.k2 as int;
    if fx_mul(p.w as int, dt) < p.z as int {
        (k1, spec_stable_k2(k1, k2, dt))
    } else {
        let t1 = fx_exp(fx_neg(fx_mul(fx_mul(p.z as int, p.w as int), dt)));
        let osc = if p.z as int <= FX_ONE as int {
            fx_cos(fx_mul(p.d as int, dt))
        } else {
            fx_cosh(fx_mul(p.d as int, dt))
        };
        let alpha = fx_mul(FX_TWO as int, fx_mul(t1, osc));
        let beta = fx_mul(t1, t1);
        let denom = fx_add(fx_sub(beta, alpha), FX_ONE as int);
        if denom < 1 {
            (k1, spec_stable_k2(k1, k2, dt))
        } else {
            let t2 = fx_div(dt, denom);
            let nk1 = fx_mul(t2, fx_sub(FX_ONE as int, beta));
            let nk2 = fx_mul(t2, dt);
            if nk2 < 1 {
                (k1, spec_stable_k2(k1, k2, dt))
            } else {
                (nk1, nk2)
            }
        }
    }
}

impl DynamicsState {
    /// All four values well formed, of one dimension, with usable
    /// parameters.
    pub open spec fn wf(&self) -> bool {
        &&& self.target.wf()
        &&& self.prev_target.wf()
        &&& self.current.wf()
        &&& self.d_current.wf()
        &&& self.prev_target.dim == self.target.dim
        &&& self.current.dim == self.target.dim
        &&& self.d_current.dim == self.target.dim
        &&& self.params.wf()
    }

    /// A fresh filter: current and previous target both at the initial
    /// value, at rest.
    pub fn new(target: AnimValue, params: DynamicsParams) -> (r: Self)
        requires
            target.wf(),
            params.wf(),
        ensures
            r.target == target,
            r.prev_target == target,
            r.current == target,
            r.d_current == spec_vzero(target.dim),
            r.params == params,
            r.wf(),
    {
        DynamicsState {
            target,
            prev_target: target,
            current: target,
            d_current: AnimValue::zero(target.dim),
            params,
        }
    }

    /// The current filtered value.
    pub fn value(&self) -> (r: AnimValue)
        ensures
            r == self.current,
    {
        self.current
    }

    /// One shared step with explicit coefficients; see `spec_tick`.
    pub fn tick(&mut self, dt: i64, d_target: Option<AnimValue>, k1: i64, k2: i64, k3: i64)
        requires
            dt >= 1,
            k2 >= 1,
        ensures
            *final(self) == spec_tick(*old(self), dt as int, d_target, k1 as int, k2 as int, k3 as int),
            old(self).wf() ==> final(self).wf(),
    {
        let dtg: AnimValue = match d_target {
            Some(v) => v,
            None => self.target.vsub(&self.prev_target).vdiv(dt),
        };
        self.prev_target = self.target;
        self.current = self.current.vadd(&self.d_current.vscale(dt));
        let inner: AnimValue = self
            .target
            .vadd(&dtg.vscale(k3))
            .vsub(&self.current)
            .vsub(&self.d_current.vscale(k1));
        self.d_current = self.d_current.vadd(&inner.vdiv(k2).vscale(dt));
    }

    /// One step with the raw derived coefficients. Numerically faithful
    /// only under a small, known `dt`.
    pub fn tick_simple(&mut self, dt: i64, d_target: Option<AnimValue>)
        requires
            dt >= 1,
            old(self).params.wf(),
        ensures
            *final(self) == spec_tick(
                *old(self),
                dt as int,
                d_target,
                old(self).params.k1 as int,
                old(self).params.k2 as int,
                old(self).params.k3 as int,
            ),
            old(self).wf() ==> final(self).wf(),
    {
        let p = self.params;
        self.tick(dt, d_target, p.k1, p.k2, p.k3);
    }

    /// One step with the clamped `k2`; bounded for any `dt`.
    pub fn tick_stable(&mut self, dt: i64, d_target: Option<AnimValue>)
        requires
            dt >= 1,
            old(self).params.wf(),
        ensures
            *final(self) == spec_tick(
                *old(self),
                dt as int,
                d_target,
                old(self).params.k1 as int,
                spec_stable_k2(old(self).params.k1 as int, old(self).params.k2 as int, dt as int),
                old(self).params.k3 as int,
            ),
            old(self).wf() ==> final(self).wf(),
    {
        let p = self.params;
        let k2s: i64 = fmax(
            fmax(p.k2, fmul(dt, p.k1)),
            fdivn(fadd(fmul(dt, dt), fmul(p.k1, dt)), 2),
        );
        self.tick(dt, d_target, p.k1, k2s, p.k3);
    }

    /// One step with pole-matched coefficients; see `spec_pole_coeffs`.
    pub fn tick_pole_matching(&mut self, dt: i64, d_target: Option<AnimValue>)
        requires
            dt >= 1,
            old(self).params.wf(),
        ensures
            *final(self) == spec_tick(
                *old(self),
                dt as int,
                d_target,
                spec_pole_coeffs(old(self).params, dt as int).0,
                spec_pole_coeffs(old(self).params, dt as int).1,
                old(self).params.k3 as int,
            ),
            old(self).wf() ==> final(self).wf(),
    {
        let p = self.params;
        if fmul(p.w, dt) < p.z {
            self.tick_stable(dt, d_target);
            return;
        }
        proof {
            lemma_fx_mul_nonneg(p.z as int, p.w as int);
            lemma_fx_mul_nonneg(fx_mul(p.z as int, p.w as int), dt as int);
            lemma_fx_mul_nonneg(p.d as int, dt as int);
        }
        // use pole matching when the system is very fast
        let t1: i64 = fexp(fneg(fmul(fmul(p.z, p.w), dt)));
        let osc: i64 = if p.z <= FX_ONE {
            fcos(fmul(p.d, dt))
        } else {
            fcosh(fmul(p.d, dt))
        };
        let alpha: i64 = fmul(FX_TWO, fmul(t1, osc));
        let beta: i64 = fmul(t1, t1);
        let denom: i64 = fadd(fsub(beta, alpha), FX_ONE);
        if denom < 1 {
            self.tick_stable(dt, d_target);
            return;
        }
        let t2: i64 = fdiv(dt, denom);
        let nk1: i64 = fmul(t2, fsub(FX_ONE, beta));
        let nk2: i64 = fmul(t2, dt);
        if nk2 < 1 {
            self.tick_stable(dt, d_target);
            return;
        }
        self.tick(dt, d_target, nk1, nk2, p.k3);
    }
}

/// One tick keeps every lane of the state in the representable range,
/// whatever the coefficients and however large the step: with saturating
/// arithmetic the integrator cannot diverge. In particular the Stable and
/// Pole-Matching strategies keep `current` and `d_current` bounded across
/// any number of consecutive ticks.
pub proof fn lemma_tick_bounded(
    s: DynamicsState,
    dt: int,
    d_target: Option<AnimValue>,
    k1: int,
    k2: int,
    k3: int,
)
    requires
        s.wf(),
    ensures
        spec_tick(s, dt, d_target, k1, k2, k3).wf(),
        fx_in_range(spec_tick(s, dt, d_target, k1, k2, k3).current.x as int),
        fx_in_range(spec_tick(s, dt, d_target, k1, k2, k3).d_current.x as int),
{
}

/// Steady state is a fixed point: when the target is already reached, the
/// rate of change is zero and the target is not moving (whether stated by
/// an explicit zero derivative or by an unchanged previous target), one
/// tick leaves the state unchanged, under every strategy's coefficients.
pub proof fn lemma_tick_steady_state(s: DynamicsState, dt: int, k1: int, k2: int, k3: int)
    requires
        s.wf(),
        dt >= 1,
        k2 >= 1,
        s.current == s.target,
        s.prev_target == s.target,
        s.d_current == spec_vzero(s.target.dim),
    ensures
        spec_tick(s, dt, None, k1, k2, k3) == s,
        spec_tick(s, dt, Some(spec_vzero(s.target.dim)), k1, k2, k3) == s,
{
    assert(0int / dt == 0) by (nonlinear_arith)
        requires
            dt >= 1,
    ;
    assert(0int / k2 == 0) by (nonlinear_arith)
        requires
            k2 >= 1,
    ;
    let z0 = spec_vzero(s.target.dim);
    assert(spec_vsub(s.target, s.prev_target) == z0);
    assert(spec_vdiv(z0, dt) == z0);
    assert(spec_vscale(z0, k3) == z0);
    assert(spec_vscale(z0, dt) == z0);
    assert(spec_vscale(z0, k1) == z0);
    assert(spec_vadd(s.current, z0) == s.current);
    assert(spec_vadd(s.target, z0) == s.target);
    assert(spec_vsub(s.target, s.current) == z0);
    assert(spec_vdiv(z0, k2) == z0);
    assert(spec_vadd(z0, z0) == z0);
}

} // verus!
