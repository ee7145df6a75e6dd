//! Saturating signed fixed-point arithmetic with 32 fractional bits.
//!
//! A quantity `q` stands for the real number `q / 2^32`. Every operation
//! clips its result into `[-FX_MAX, FX_MAX]`, so the arithmetic is total:
//! nothing overflows and nothing panics. Products and quotients truncate
//! toward zero, mirroring the rounding of hardware division on magnitudes.
use vstd::prelude::*;

verus! {

/// Number of units per 1.0: 2^32.
pub const FX_SCALE: i64 = 0x1_0000_0000;

/// Largest representable magnitude. The range is kept symmetric so that
/// negation never overflows.
pub const FX_MAX: i64 = 0x7fff_ffff_ffff_ffff;

/// 1.0 in fixed point.
pub const FX_ONE: i64 = 0x1_0000_0000;

/// 2.0 in fixed point.
pub const FX_TWO: i64 = 0x2_0000_0000;

/// The closest fixed-point value to the circle constant pi.
pub const FX_PI: i64 = 13493037705;

/// The closest fixed-point value to 2 * pi.
pub const FX_TWO_PI: i64 = 26986075409;

/// Magnitude of `a`.
pub open spec fn fx_abs(a: int) -> int {
    if a < 0 {
        -a
    } else {
        a
    }
}

/// Saturate `a` into the representable range.
pub open spec fn fx_clip(a: int) -> int {
    if a > FX_MAX as int {
        FX_MAX as int
    } else if a < -(FX_MAX as int) {
        -(FX_MAX as int)
    } else {
        a
    }
}

/// Saturating fixed-point sum.
pub open spec fn fx_add(a: int, b: int) -> int {
    fx_clip(a + b)
}

/// Saturating fixed-point difference.
pub open spec fn fx_sub(a: int, b: int) -> int {
    fx_clip(a - b)
}

/// Saturating negation.
pub open spec fn fx_neg(a: int) -> int {
    fx_clip(-a)
}

/// Saturating fixed-point product: the magnitudes are multiplied, scaled
/// back down with truncation, and the sign is reapplied.
pub open spec fn fx_mul(a: int, b: int) -> int {
    let m = (fx_abs(a) * fx_abs(b)) / (FX_SCALE as int);
    if (a < 0) != (b < 0) {
        fx_clip(-m)
    } else {
        fx_clip(m)
    }
}

/// Saturating fixed-point quotient (meaningful for `b != 0`).
pub open spec fn fx_div(a: int, b: int) -> int {
    let m = (fx_abs(a) * (FX_SCALE as int)) / fx_abs(b);
    if (a < 0) != (b < 0) {
        fx_clip(-m)
    } else {
        fx_clip(m)
    }
}

/// Division of a fixed-point value by a plain positive integer.
pub open spec fn fx_divn(a: int, n: int) -> int {
    let m = fx_abs(a) / n;
    if a < 0 {
        fx_clip(-m)
    } else {
        fx_clip(m)
    }
}

/// The larger of two values.
pub open spec fn fx_max2(a: int, b: int) -> int {
    if a >= b {
        a
    } else {
        b
    }
}

/// True exactly of the values every operation here returns.
pub open spec fn fx_in_range(a: int) -> bool {
    -(FX_MAX as int) <= a <= FX_MAX as int
}

fn clip128(a: i128) -> (r: i64)
    ensures
        r as int == fx_clip(a as int),
{
    if a > FX_MAX as i128 {
        FX_MAX
    } else if a < -(FX_MAX as i128) {
        -FX_MAX
    } else {
        a as i64
    }
}

fn abs128(a: i64) -> (r: i128)
    ensures
        r as int == fx_abs(a as int),
        r >= 0,
{
    if a < 0 {
        -(a as i128)
    } else {
        a as i128
    }
}

/// Saturate a raw value into the representable range.
pub fn fclip(a: i64) -> (r: i64)
    ensures
        r as int == fx_clip(a as int),
{
    clip128(a as i128)
}

/// Saturating sum.
pub fn fadd(a: i64, b: i64) -> (r: i64)
    ensures
        r as int == fx_add(a as int, b as int),
{
    clip128(a as i128 + b as i128)
}

/// Saturating difference.
pub fn fsub(a: i64, b: i64) -> (r: i64)
    ensures
        r as int == fx_sub(a as int, b as int),
{
    clip128(a as i128 - b as i128)
}

/// Saturating magnitude.
pub fn fabs(a: i64) -> (r: i64)
    ensures
        r as int == fx_clip(fx_abs(a as int)),
        r >= 0,
{
    if a < 0 {
        clip128(-(a as i128))
    } else {
        a
    }
}

/// Saturating negation.
pub fn fneg(a: i64) -> (r: i64)
    ensures
        r as int == fx_neg(a as int),
{
    clip128(-(a as i128))
}

/// Saturating product of two fixed-point values.
pub fn fmul(a: i64, b: i64) -> (r: i64)
    ensures
        r as int == fx_mul(a as int, b as int),
{
    let neg: bool = (a < 0) != (b < 0);
    let ma: i128 = abs128(a);
    let mb: i128 = abs128(b);
    assert(ma * mb <= 0x8000_0000_0000_0000i128 * 0x8000_0000_0000_0000i128) by (nonlinear_arith)
        requires
            0 <= ma <= 0x8000_0000_0000_0000i128,
            0 <= mb <= 0x8000_0000_0000_0000i128,
    ;
    let p: i128 = ma * mb;
    let q: i128 = p / (FX_SCALE as i128);
    let m: i64 = if q > FX_MAX as i128 {
        FX_MAX
    } else {
        q as i64
    };
    if neg {
        -m
    } else {
        m
    }
}

/// Saturating quotient of two fixed-point values.
pub fn fdiv(a: i64, b: i64) -> (r: i64)
    requires
        b != 0,
    ensures
        r as int == fx_div(a as int, b as int),
{
    let neg: bool = (a < 0) != (b < 0);
    let ma: i128 = abs128(a);
    let mb: i128 = abs128(b);
    let q: i128 = (ma * (FX_SCALE as i128)) / mb;
    let m: i64 = if q > FX_MAX as i128 {
        FX_MAX
    } else {
        q as i64
    };
    if neg {
        -m
    } else {
        m
    }
}

/// Quotient of a fixed-point value and a plain positive integer.
pub fn fdivn(a: i64, n: i64) -> (r: i64)
    requires
        n > 0,
    ensures
        r as int == fx_divn(a as int, n as int),
{
    let ma: i128 = abs128(a);
    let q: i128 = ma / (n as i128);
    let m: i64 = if q > FX_MAX as i128 {
        FX_MAX
    } else {
        q as i64
    };
    if a < 0 {
        -m
    } else {
        m
    }
}

/// The larger of two values.
pub fn fmax(a: i64, b: i64) -> (r: i64)
    ensures
        r as int == fx_max2(a as int, b as int),
{
    if a >= b {
        a
    } else {
        b
    }
}

/// `r` is the integer square root of `v`.
pub open spec fn is_isqrt(v: int, r: int) -> bool {
    0 <= r && r * r <= v && v < (r + 1) * (r + 1)
}

/// The square root of the fixed-point value `a` (meaningful for `a >= 0`):
/// the unique `r` with `r^2 <= a * FX_SCALE < (r + 1)^2`, which keeps the
/// fixed-point scale.
pub open spec fn fx_sqrt(a: int) -> int {
    choose|r: int| #[trigger] is_isqrt(a * (FX_SCALE as int), r)
}

/// An integer square root is unique.
pub proof fn lemma_isqrt_unique(v: int, r1: int, r2: int)
    by (nonlinear_arith)
    requires
        is_isqrt(v, r1),
        is_isqrt(v, r2),
    ensures
        r1 == r2,
{
}

/// Square root of a nonnegative fixed-point value, by binary search.
pub fn fsqrt(a: i64) -> (r: i64)
    requires
        a >= 0,
    ensures
        r as int == fx_sqrt(a as int),
        is_isqrt(a as int * (FX_SCALE as int), r as int),
        r >= 0,
{
    assert((a as u128) * (FX_SCALE as u128) < 0x1_0000_0000_0000_0000_0000_0000u128)
        by (nonlinear_arith)
        requires
            a as u128 <= 0x7fff_ffff_ffff_ffffu128,
            FX_SCALE as u128 == 0x1_0000_0000u128,
    ;
    let v: u128 = (a as u128) * (FX_SCALE as u128);
    let mut lo: u128 = 0;
    let mut hi: u128 = 0x1_0000_0000_0000;
    assert(hi * hi == 0x1_0000_0000_0000_0000_0000_0000u128) by (nonlinear_arith)
        requires
            hi == 0x1_0000_0000_0000u128,
    ;
    while lo + 1 < hi
        invariant
            lo < hi <= 0x1_0000_0000_0000u128,
            lo * lo <= v,
            v < hi * hi,
        decreases hi - lo,
    {
        let mid: u128 = lo + (hi - lo) / 2;
        assert(mid * mid < 0x1_0000_0000_0000_0000_0000_0000u128) by (nonlinear_arith)
            requires
                mid < 0x1_0000_0000_0000u128,
        ;
        if mid * mid <= v {
            lo = mid;
        } else {
            hi = mid;
        }
    }
    proof {
        assert(is_isqrt(v as int, lo as int));
        assert(is_isqrt(v as int, fx_sqrt(a as int)));
        lemma_isqrt_unique(v as int, lo as int, fx_sqrt(a as int));
    }
    lo as i64
}

/// Number of terms kept of each power series.
pub const FX_TERMS: i64 = 16;

/// Term `k` of the exponential series: `t_0 = 1`, `t_k = t_{k-1} * y / k`.
pub open spec fn exp_term(y: int, k: nat) -> int
    decreases k,
{
    if k == 0 {
        FX_ONE as int
    } else {
        fx_divn(fx_mul(exp_term(y, (k - 1) as nat), y), k as int)
    }
}

/// Partial sum of the first `k + 1` terms of the exponential series.
pub open spec fn exp_sum(y: int, k: nat) -> int
    decreases k,
{
    if k == 0 {
        FX_ONE as int
    } else {
        fx_add(exp_sum(y, (k - 1) as nat), exp_term(y, k))
    }
}

/// `k`-fold squaring of `v`.
pub open spec fn fx_sq_iter(v: int, k: nat) -> int
    decreases k,
{
    if k == 0 {
        v
    } else {
        let s = fx_sq_iter(v, (k - 1) as nat);
        fx_mul(s, s)
    }
}

/// The exponential of a nonpositive fixed-point value: arguments below -22
/// (where the true value drops under the fixed-point resolution) map to 0;
/// otherwise the argument is divided by 32, the series is summed, and the
/// sum is squared five times.
pub open spec fn fx_exp(a: int) -> int {
    if a <= -22 * (FX_SCALE as int) {
        0
    } else {
        fx_sq_iter(exp_sum(fx_divn(a, 32), FX_TERMS as nat), 5)
    }
}

/// Exponential of a nonpositive fixed-point value.
pub fn fexp(a: i64) -> (r: i64)
    requires
        a <= 0,
    ensures
        r as int == fx_exp(a as int),
{
    if a <= -22 * FX_SCALE {
        return 0;
    }
    let y: i64 = fdivn(a, 32);
    let mut t: i64 = FX_ONE;
    let mut acc: i64 = FX_ONE;
    let mut k: i64 = 1;
    while k <= FX_TERMS
        invariant
            1 <= k <= FX_TERMS + 1,
            y as int == fx_divn(a as int, 32),
            t as int == exp_term(y as int, (k - 1) as nat),
            acc as int == exp_sum(y as int, (k - 1) as nat),
        decreases FX_TERMS + 1 - k,
    {
        t = fdivn(fmul(t, y), k);
        acc = fadd(acc, t);
        k = k + 1;
    }
    let mut j: i64 = 0;
    let mut v: i64 = acc;
    while j < 5
        invariant
            0 <= j <= 5,
            v as int == fx_sq_iter(exp_sum(fx_divn(a as int, 32), FX_TERMS as nat), j as nat),
        decreases 5 - j,
    {
        v = fmul(v, v);
        j = j + 1;
    }
    v
}

/// Term `k` of the cosine series over `y2 = y^2`:
/// `t_0 = 1`, `t_k = -(t_{k-1} * y2) / ((2k - 1) * 2k)`.
pub open spec fn cos_term(y2: int, k: nat) -> int
    decreases k,
{
    if k == 0 {
        FX_ONE as int
    } else {
        fx_neg(fx_divn(fx_mul(cos_term(y2, (k - 1) as nat), y2), (2 * k - 1) * (2 * k)))
    }
}

/// Partial sum of the first `k + 1` terms of the cosine series.
pub open spec fn cos_sum(y2: int, k: nat) -> int
    decreases k,
{
    if k == 0 {
        FX_ONE as int
    } else {
        fx_add(cos_sum(y2, (k - 1) as nat), cos_term(y2, k))
    }
}

/// The cosine of a nonnegative fixed-point angle: the angle is reduced
/// modulo 2 * pi, then the series is summed.
pub open spec fn fx_cos(a: int) -> int {
    let y = a - (a / (FX_TWO_PI as int)) * (FX_TWO_PI as int);
    cos_sum(fx_mul(y, y), FX_TERMS as nat)
}

/// Cosine of a nonnegative fixed-point angle.
pub fn fcos(a: i64) -> (r: i64)
    requires
        a >= 0,
    ensures
        r as int == fx_cos(a as int),
{
    let n: i64 = a / FX_TWO_PI;
    let y: i64 = a - n * FX_TWO_PI;
    let y2: i64 = fmul(y, y);
    let mut t: i64 = FX_ONE;
    let mut acc: i64 = FX_ONE;
    let mut k: i64 = 1;
    while k <= FX_TERMS
        invariant
            1 <= k <= FX_TERMS + 1,
            t as int == cos_term(y2 as int, (k - 1) as nat),
            acc as int == cos_sum(y2 as int, (k - 1) as nat),
        decreases FX_TERMS + 1 - k,
    {
        assert((2 * k - 1) * (2 * k) >= 2 && (2 * k - 1) * (2 * k) <= 1056) by (nonlinear_arith)
            requires
                1 <= k <= 16,
        ;
        let c: i64 = (2 * k - 1) * (2 * k);
        t = fneg(fdivn(fmul(t, y2), c));
        acc = fadd(acc, t);
        k = k + 1;
    }
    acc
}

/// Term `k` of the hyperbolic cosine series over `y2 = y^2`:
/// `t_0 = 1`, `t_k = (t_{k-1} * y2) / ((2k - 1) * 2k)`.
pub open spec fn cosh_term(y2: int, k: nat) -> int
    decreases k,
{
    if k == 0 {
        FX_ONE as int
    } else {
        fx_divn(fx_mul(cosh_term(y2, (k - 1) as nat), y2), (2 * k - 1) * (2 * k))
    }
}

/// Partial sum of the first `k + 1` terms of the hyperbolic cosine series.
pub open spec fn cosh_sum(y2: int, k: nat) -> int
    decreases k,
{
    if k == 0 {
        FX_ONE as int
    } else {
        fx_add(cosh_sum(y2, (k - 1) as nat), cosh_term(y2, k))
    }
}

/// The hyperbolic cosine of a fixed-point value, by the truncated series
/// (the series saturates for large arguments).
pub open spec fn fx_cosh(a: int) -> int {
    cosh_sum(fx_mul(a, a), FX_TERMS as nat)
}

/// Hyperbolic cosine of a nonnegative fixed-point value.
pub fn fcosh(a: i64) -> (r: i64)
    requires
        a >= 0,
    ensures
        r as int == fx_cosh(a as int),
{
    let y2: i64 = fmul(a, a);
    let mut t: i64 = FX_ONE;
    let mut acc: i64 = FX_ONE;
    let mut k: i64 = 1;
    while k <= FX_TERMS
        invariant
            1 <= k <= FX_TERMS + 1,
            t as int == cosh_term(y2 as int, (k - 1) as nat),
            acc as int == cosh_sum(y2 as int, (k - 1) as nat),
        decreases FX_TERMS + 1 - k,
    {
        assert((2 * k - 1) * (2 * k) >= 2 && (2 * k - 1) * (2 * k) <= 1056) by (nonlinear_arith)
            requires
                1 <= k <= 16,
        ;
        let c: i64 = (2 * k - 1) * (2 * k);
        t = fdivn(fmul(t, y2), c);
        acc = fadd(acc, t);
        k = k + 1;
    }
    acc
}

/// The product of two nonnegative values is nonnegative.
pub proof fn lemma_fx_mul_nonneg(a: int, b: int)
    requires
        a >= 0,
        b >= 0,
    ensures
        fx_mul(a, b) >= 0,
{
    vstd::arithmetic::mul::lemma_mul_nonnegative(fx_abs(a), fx_abs(b));
    vstd::arithmetic::div_mod::lemma_div_pos_is_pos(fx_abs(a) * fx_abs(b), FX_SCALE as int);
}

/// A lower bound on a product of nonnegative values carries through the
/// scaling division and the clip.
pub proof fn lemma_fx_mul_lower(a: int, b: int, la: int, lb: int)
    requires
        0 <= la <= a,
        0 <= lb <= b,
    ensures
        fx_mul(a, b) >= fx_clip((la * lb) / (FX_SCALE as int)),
{
    vstd::arithmetic::mul::lemma_mul_inequality(la, a, lb);
    vstd::arithmetic::mul::lemma_mul_inequality(lb, b, a);
    vstd::arithmetic::mul::lemma_mul_is_commutative(a, lb);
    vstd::arithmetic::mul::lemma_mul_is_commutative(b, a);
    vstd::arithmetic::div_mod::lemma_div_is_ordered(la * lb, a * b, FX_SCALE as int);
}

} // verus!
