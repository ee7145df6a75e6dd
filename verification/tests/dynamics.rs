//! The numeric core: fixed-point primitives, parameter derivation, and
//! the behavior of the three integration strategies.
use second_order_dynamics::fx::{
    fadd, fcos, fcosh, fdiv, fdivn, fexp, fmax, fmul, fneg, fsqrt, FX_MAX, FX_ONE, FX_SCALE,
};
use second_order_dynamics::state::{DynamicsParams, DynamicsState, TickMode, FX_MIN_FREQ};
use second_order_dynamics::value::AnimValue;

fn fx(x: f64) -> i64 {
    (x * FX_SCALE as f64).round() as i64
}

fn to_f(x: i64) -> f64 {
    x as f64 / FX_SCALE as f64
}

#[test]
fn fx_arithmetic_golden() {
    assert_eq!(fadd(fx(1.5), fx(2.25)), fx(3.75));
    assert_eq!(fadd(FX_MAX, FX_MAX), FX_MAX);
    assert_eq!(fadd(-FX_MAX, -FX_MAX), -FX_MAX);
    assert_eq!(fmul(fx(1.5), fx(2.0)), fx(3.0));
    assert_eq!(fmul(fx(-1.5), fx(2.0)), fx(-3.0));
    assert_eq!(fmul(FX_MAX, FX_MAX), FX_MAX);
    assert_eq!(fdiv(fx(3.0), fx(2.0)), fx(1.5));
    assert_eq!(fdiv(fx(-3.0), fx(2.0)), fx(-1.5));
    assert_eq!(fdivn(fx(3.0), 2), fx(1.5));
    assert_eq!(fneg(fx(2.5)), fx(-2.5));
    assert_eq!(fmax(fx(1.0), fx(2.0)), fx(2.0));
}

#[test]
fn fx_sqrt_golden() {
    assert_eq!(fsqrt(0), 0);
    assert_eq!(fsqrt(fx(4.0)), fx(2.0));
    assert!((to_f(fsqrt(fx(2.0))) - 2.0f64.sqrt()).abs() < 1e-4);
    assert!((to_f(fsqrt(fx(0.25))) - 0.5).abs() < 1e-4);
}

#[test]
fn fx_exp_golden() {
    assert_eq!(fexp(0), FX_ONE);
    assert!((to_f(fexp(fx(-1.0))) - (-1.0f64).exp()).abs() < 1e-5);
    assert!((to_f(fexp(fx(-3.2))) - (-3.2f64).exp()).abs() < 1e-5);
    assert_eq!(fexp(fx(-30.0)), 0);
}

#[test]
fn fx_cos_cosh_golden() {
    assert_eq!(fcos(0), FX_ONE);
    assert!((to_f(fcos(fx(std::f64::consts::PI))) + 1.0).abs() < 1e-4);
    assert!((to_f(fcos(fx(1.0))) - 1.0f64.cos()).abs() < 1e-4);
    assert!((to_f(fcos(fx(7.0))) - 7.0f64.cos()).abs() < 1e-4);
    assert_eq!(fcosh(0), FX_ONE);
    assert!((to_f(fcosh(fx(1.0))) - 1.0f64.cosh()).abs() < 1e-4);
    assert!((to_f(fcosh(fx(2.5))) - 2.5f64.cosh()).abs() < 1e-3);
}

#[test]
fn params_derive_golden() {
    let two_pi = 2.0 * std::f64::consts::PI;
    let p = DynamicsParams::new(fx(1.0), fx(1.0), 0);
    assert!((to_f(p.w) - two_pi).abs() < 1e-4);
    assert!((to_f(p.k1) - 1.0 / std::f64::consts::PI).abs() < 1e-4);
    assert!((to_f(p.k2) - 1.0 / (two_pi * two_pi)).abs() < 1e-4);
    assert_eq!(p.k3, 0);
    assert_eq!(p.z, fx(1.0));
    // critical damping: |z^2 - 1| is exactly zero in fixed point
    assert_eq!(p.d, 0);
}

#[test]
fn params_derive_response_factor() {
    let p = DynamicsParams::new(fx(2.0), fx(0.5), fx(2.0));
    let w = 2.0 * std::f64::consts::PI * 2.0;
    assert!((to_f(p.k3) - 0.5 * 2.0 / w).abs() < 1e-4);
    assert!((to_f(p.d) - w * (0.25f64 - 1.0).abs().sqrt()).abs() < 1e-3);
}

#[test]
fn smooth_damp_is_critical() {
    let a = DynamicsParams::smooth_damp(fx(3.0));
    let b = DynamicsParams::new(fx(3.0), FX_ONE, 0);
    assert!(a == b);
    assert_eq!(FX_MIN_FREQ, 65536);
}

#[test]
fn default_params_and_mode() {
    let p: DynamicsParams = Default::default();
    assert!(p == DynamicsParams::smooth_damp(FX_ONE));
    let m: TickMode = Default::default();
    assert!(m == TickMode::Stable);
}

#[test]
fn value_ops_lanewise() {
    let a = AnimValue::vec3(fx(1.0), fx(2.0), fx(3.0));
    let b = AnimValue::vec3(fx(0.5), fx(-1.0), fx(4.0));
    let s = a.vadd(&b);
    assert_eq!((s.x, s.y, s.z, s.w, s.dim), (fx(1.5), fx(1.0), fx(7.0), 0, 3));
    let d = a.vsub(&b);
    assert_eq!((d.x, d.y, d.z), (fx(0.5), fx(3.0), fx(-1.0)));
    let m = a.vscale(fx(2.0));
    assert_eq!((m.x, m.y, m.z), (fx(2.0), fx(4.0), fx(6.0)));
    let q = a.vdiv(fx(2.0));
    assert_eq!((q.x, q.y, q.z), (fx(0.5), fx(1.0), fx(1.5)));
    let z = AnimValue::zero(2);
    assert_eq!((z.x, z.y, z.dim), (0, 0, 2));
}

/// The golden step scenario: critically damped 1 Hz parameters, one tick
/// at dt = 1 with the target stepping from 0 to 1.
#[test]
fn step_response_golden() {
    let p = DynamicsParams::new(fx(1.0), fx(1.0), 0);
    let two_pi = 2.0 * std::f64::consts::PI;

    // Simple: current stays, d_current jumps by (1 - 0) / k2 * dt = w^2.
    let mut st = DynamicsState::new(AnimValue::scalar(0), p);
    st.target = AnimValue::scalar(fx(1.0));
    st.tick_simple(fx(1.0), None);
    assert_eq!(st.current.x, 0);
    assert!((to_f(st.d_current.x) - two_pi * two_pi).abs() < 1e-3);
    assert!(st.prev_target == st.target);

    // Stable: k2 is clamped to (dt^2 + k1*dt) / 2 here.
    let mut st = DynamicsState::new(AnimValue::scalar(0), p);
    st.target = AnimValue::scalar(fx(1.0));
    st.tick_stable(fx(1.0), None);
    let k1 = 1.0 / std::f64::consts::PI;
    let k2s = (1.0f64 + k1) / 2.0;
    assert_eq!(st.current.x, 0);
    assert!((to_f(st.d_current.x) - 1.0 / k2s).abs() < 1e-4);
}

/// Steady state is a fixed point: a filter at its (unmoving) target with
/// zero rate is left bit-for-bit unchanged by every strategy.
#[test]
fn tick_fixed_point() {
    let p = DynamicsParams::new(fx(2.0), fx(1.5), fx(0.25));
    let dt = fx(1.0 / 60.0);
    let start = DynamicsState::new(AnimValue::vec2(fx(5.0), fx(-3.0)), p);

    let mut a = start;
    a.tick_simple(dt, None);
    assert!(a == start);

    let mut b = start;
    b.tick_stable(dt, None);
    assert!(b == start);

    let mut c = start;
    c.tick_pole_matching(dt, None);
    assert!(c == start);

    let mut d = start;
    d.tick_simple(dt, Some(AnimValue::zero(2)));
    assert!(d == start);
}

/// Stable and Pole-Matching stay bounded across 10,000 ticks with a
/// constant target, even at a huge step size and a fast, heavily damped
/// system.
#[test]
fn stable_and_pole_bounded_10000_ticks() {
    let p = DynamicsParams::new(fx(1000.0), fx(5.0), 0);
    let dt = fx(1.0);

    let mut st = DynamicsState::new(AnimValue::scalar(0), p);
    st.target = AnimValue::scalar(fx(1.0));
    for _ in 0..10_000 {
        st.tick_stable(dt, None);
        assert!(to_f(st.current.x).abs() < 1e7);
        assert!(to_f(st.d_current.x).abs() < 1e7);
    }

    let mut st = DynamicsState::new(AnimValue::scalar(0), p);
    st.target = AnimValue::scalar(fx(1.0));
    for _ in 0..10_000 {
        st.tick_pole_matching(dt, None);
        assert!(to_f(st.current.x).abs() < 1e7);
        assert!(to_f(st.d_current.x).abs() < 1e7);
    }
}

/// Critically damped tracking at a small step converges to the target
/// monotonically, without overshoot.
#[test]
fn critical_damping_monotone() {
    let p = DynamicsParams::new(fx(1.0), fx(1.0), 0);
    let dt = fx(1.0 / 256.0);
    let mut st = DynamicsState::new(AnimValue::scalar(0), p);
    st.target = AnimValue::scalar(fx(1.0));
    let mut prev = 0.0f64;
    for _ in 0..4000 {
        st.tick_stable(dt, None);
        let cur = to_f(st.current.x);
        assert!(cur >= prev - 1e-6);
        assert!(cur <= 1.0 + 1e-6);
        prev = cur;
    }
    assert!((prev - 1.0).abs() < 1e-3);
}

/// Pole-Matching settles onto the continuous-time analytic step response
/// even at a coarse step, where Stable shows step-size-dependent
/// overshoot and a larger error.
#[test]
fn pole_matching_tracks_analytic() {
    let p = DynamicsParams::new(fx(1.0), fx(1.0), 0);
    let dt = 0.5f64;
    let w = 2.0 * std::f64::consts::PI;
    let analytic = |t: f64| 1.0 - (1.0 + w * t) * (-w * t).exp();

    let mut pole = DynamicsState::new(AnimValue::scalar(0), p);
    pole.target = AnimValue::scalar(fx(1.0));
    let mut stable = DynamicsState::new(AnimValue::scalar(0), p);
    stable.target = AnimValue::scalar(fx(1.0));

    let mut pole_tail_err = 0.0f64;
    let mut stable_tail_err = 0.0f64;
    let mut pole_max = 0.0f64;
    let mut stable_max = 0.0f64;
    for n in 1..=20 {
        pole.tick_pole_matching(fx(dt), None);
        stable.tick_stable(fx(dt), None);
        let t = n as f64 * dt;
        let pc = to_f(pole.current.x);
        let sc = to_f(stable.current.x);
        pole_max = pole_max.max(pc);
        stable_max = stable_max.max(sc);
        if n >= 4 {
            pole_tail_err = pole_tail_err.max((pc - analytic(t)).abs());
            stable_tail_err = stable_tail_err.max((sc - analytic(t)).abs());
        }
    }
    assert!(pole_tail_err < 5e-3);
    assert!(pole_max <= 1.005);
    assert!(stable_max > 1.05);
    assert!(stable_tail_err > pole_tail_err);
}
