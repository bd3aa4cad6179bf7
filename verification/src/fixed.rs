//! Saturating fixed-point arithmetic over `i64`, scale 1e6, together with
//! exponential and logarithm approximations built from it. Every executable
//! operation is total and equal to its spec-level counterpart, so functions
//! composed from these operations have exact contracts.
use vstd::prelude::*;
use crate::consts::ONE;
use crate::consts::E_FX;
use crate::consts::LN2_FX;
use crate::consts::EXP_MIN_ARG;
use crate::consts::EXP_MAX_ARG;

verus! {

/// Magnitude of an unbounded integer.
pub open spec fn iabs(a: int) -> int {
    if a < 0 { -a } else { a }
}

/// Division truncating toward zero, total: division by zero yields zero.
pub open spec fn spec_tdiv(a: int, b: int) -> int {
    if b == 0 {
        0
    } else if (a < 0) == (b < 0) {
        iabs(a) / iabs(b)
    } else {
        -(iabs(a) / iabs(b))
    }
}

/// Clamp an unbounded integer into the `i64` range.
pub open spec fn spec_sat(a: int) -> int {
    if a > i64::MAX {
        i64::MAX as int
    } else if a < i64::MIN {
        i64::MIN as int
    } else {
        a
    }
}

/// Saturating fixed-point addition.
pub open spec fn spec_add_fx(a: int, b: int) -> int {
    spec_sat(a + b)
}

/// Saturating fixed-point subtraction.
pub open spec fn spec_sub_fx(a: int, b: int) -> int {
    spec_sat(a - b)
}

/// Saturating fixed-point multiplication: the product rescaled by 1e6,
/// truncating toward zero.
pub open spec fn spec_mul_fx(a: int, b: int) -> int {
    spec_sat(spec_tdiv(a * b, ONE as int))
}

/// Saturating fixed-point division: the quotient rescaled by 1e6,
/// truncating toward zero; division by zero yields zero.
pub open spec fn spec_div_fx(a: int, b: int) -> int {
    spec_sat(spec_tdiv(a * (ONE as int), b))
}

/// Plain integer division of a fixed-point value, truncating toward zero.
pub open spec fn spec_divn_fx(a: int, n: int) -> int {
    spec_sat(spec_tdiv(a, n))
}

/// Truncating division on `i128`, total.
pub(crate) fn tdiv128(a: i128, b: i128) -> (r: i128)
    requires
        a != i128::MIN,
        b != i128::MIN,
    ensures
        r as int == spec_tdiv(a as int, b as int),
        iabs(r as int) <= iabs(a as int),
{
    if b == 0 {
        0
    } else {
        let ua: u128 = if a < 0 { (-a) as u128 } else { a as u128 };
        let ub: u128 = if b < 0 { (-b) as u128 } else { b as u128 };
        let q: u128 = ua / ub;
        assert(q as int == iabs(a as int) / iabs(b as int));
        assert(q as int <= iabs(a as int)) by {
            vstd::arithmetic::div_mod::lemma_div_nonincreasing(
                iabs(a as int), iabs(b as int));
        }
        if (a < 0) != (b < 0) {
            -(q as i128)
        } else {
            q as i128
        }
    }
}

/// Clamp an `i128` into the `i64` range.
pub(crate) fn sat64(a: i128) -> (r: i64)
    ensures
        r as int == spec_sat(a as int),
{
    if a > i64::MAX as i128 {
        i64::MAX
    } else if a < i64::MIN as i128 {
        i64::MIN
    } else {
        a as i64
    }
}

/// Saturating fixed-point addition.
pub fn add_fx(a: i64, b: i64) -> (r: i64)
    ensures
        r as int == spec_add_fx(a as int, b as int),
{
    sat64(a as i128 + b as i128)
}

/// Saturating fixed-point subtraction.
pub fn sub_fx(a: i64, b: i64) -> (r: i64)
    ensures
        r as int == spec_sub_fx(a as int, b as int),
{
    sat64(a as i128 - b as i128)
}

/// Saturating fixed-point multiplication.
pub fn mul_fx(a: i64, b: i64) -> (r: i64)
    ensures
        r as int == spec_mul_fx(a as int, b as int),
{
    assert(-0x4000_0000_0000_0000_0000_0000_0000_0000
        < (a as int) * (b as int)
        <= 0x4000_0000_0000_0000_0000_0000_0000_0000) by (nonlinear_arith)
        requires
            i64::MIN <= a <= i64::MAX,
            i64::MIN <= b <= i64::MAX,
    {}
    let p: i128 = a as i128 * b as i128;
    sat64(tdiv128(p, ONE as i128))
}

/// Saturating fixed-point division, total.
pub fn div_fx(a: i64, b: i64) -> (r: i64)
    ensures
        r as int == spec_div_fx(a as int, b as int),
{
    assert(-0x4000_0000_0000_0000_0000_0000_0000_0000
        < (a as int) * (ONE as int)
        <= 0x4000_0000_0000_0000_0000_0000_0000_0000) by (nonlinear_arith)
        requires
            i64::MIN <= a <= i64::MAX,
    {}
    let p: i128 = a as i128 * ONE as i128;
    sat64(tdiv128(p, b as i128))
}

/// Plain integer division of a fixed-point value, total.
pub fn divn_fx(a: i64, n: i64) -> (r: i64)
    ensures
        r as int == spec_divn_fx(a as int, n as int),
{
    let q: i128 = tdiv128(a as i128, n as i128);
    sat64(q)
}

/// Running term and running sum of the Taylor series of e^f after `k`
/// terms beyond the constant one.
pub open spec fn spec_exp_taylor(f: int, k: nat) -> (int, int)
    decreases k,
{
    if k == 0 {
        (ONE as int, ONE as int)
    } else {
        let (t, s) = spec_exp_taylor(f, (k - 1) as nat);
        let t2 = spec_divn_fx(spec_mul_fx(t, f), k as int);
        (t2, spec_add_fx(s, t2))
    }
}

/// e raised to a whole power, by repeated fixed-point multiplication.
pub open spec fn spec_pow_e(n: nat) -> int
    decreases n,
{
    if n == 0 {
        ONE as int
    } else {
        spec_mul_fx(spec_pow_e((n - 1) as nat), E_FX as int)
    }
}

/// Fixed-point exponential: arguments are split into a whole part, handled
/// by repeated multiplication with e, and a fractional part, handled by a
/// Taylor series. Arguments below -20 yield zero and arguments above 22
/// are clamped, so the result always fits the representation.
pub open spec fn spec_exp_fx(x: int) -> int {
    if x < EXP_MIN_ARG {
        0
    } else {
        let xc = if x > EXP_MAX_ARG { EXP_MAX_ARG as int } else { x };
        if xc >= 0 {
            let n = xc / (ONE as int);
            let f = xc % (ONE as int);
            spec_mul_fx(spec_pow_e(n as nat), spec_exp_taylor(f, 19).1)
        } else {
            let m = -xc;
            let n = m / (ONE as int);
            let f = m % (ONE as int);
            spec_div_fx(spec_exp_taylor(ONE - f, 19).1, spec_pow_e((n + 1) as nat))
        }
    }
}

fn exp_taylor(f: i64) -> (r: i64)
    ensures
        r as int == spec_exp_taylor(f as int, 19).1,
{
    let mut term: i64 = ONE;
    let mut sum: i64 = ONE;
    let mut k: i64 = 1;
    while k <= 19
        invariant
            1 <= k <= 20,
            (term as int, sum as int) == spec_exp_taylor(f as int, (k - 1) as nat),
        decreases 20 - k,
    {
        term = divn_fx(mul_fx(term, f), k);
        sum = add_fx(sum, term);
        k = k + 1;
    }
    sum
}

fn pow_e(n: i64) -> (r: i64)
    requires
        0 <= n <= 23,
    ensures
        r as int == spec_pow_e(n as nat),
{
    let mut acc: i64 = ONE;
    let mut j: i64 = 0;
    while j < n
        invariant
            0 <= j <= n,
            acc as int == spec_pow_e(j as nat),
        decreases n - j,
    {
        acc = mul_fx(acc, E_FX);
        j = j + 1;
    }
    acc
}

/// Fixed-point exponential, total.
pub fn exp_fx(x: i64) -> (r: i64)
    ensures
        r as int == spec_exp_fx(x as int),
{
    if x < EXP_MIN_ARG {
        return 0;
    }
    let xc: i64 = if x > EXP_MAX_ARG { EXP_MAX_ARG } else { x };
    if xc >= 0 {
        let n: i64 = divn_fx(xc, ONE);
        assert(n as int == xc as int / (ONE as int));
        assert(0 <= n <= 22) by {
            vstd::arithmetic::div_mod::lemma_div_is_ordered(
                xc as int, EXP_MAX_ARG as int, ONE as int);
            vstd::arithmetic::div_mod::lemma_div_pos_is_pos(xc as int, ONE as int);
        }
        proof {
            vstd::arithmetic::div_mod::lemma_fundamental_div_mod(xc as int, ONE as int);
            vstd::arithmetic::div_mod::lemma_mod_bound(xc as int, ONE as int);
        }
        let f: i64 = xc - n * ONE;
        mul_fx(pow_e(n), exp_taylor(f))
    } else {
        let m: i64 = -xc;
        let n: i64 = divn_fx(m, ONE);
        assert(n as int == m as int / (ONE as int));
        assert(0 <= n <= 20) by {
            vstd::arithmetic::div_mod::lemma_div_is_ordered(
                m as int, -(EXP_MIN_ARG as int), ONE as int);
            vstd::arithmetic::div_mod::lemma_div_pos_is_pos(m as int, ONE as int);
        }
        proof {
            vstd::arithmetic::div_mod::lemma_fundamental_div_mod(m as int, ONE as int);
            vstd::arithmetic::div_mod::lemma_mod_bound(m as int, ONE as int);
        }
        let f: i64 = m - n * ONE;
        div_fx(exp_taylor(ONE - f), pow_e(n + 1))
    }
}

/// One conditional range-reduction step toward [1, 2) from above: values
/// of at least 2 are halved and the binary exponent is raised.
pub open spec fn spec_ln_norm_down(m: int, k: int, i: nat) -> (int, int)
    decreases i,
{
    if i == 0 {
        (m, k)
    } else if m >= 2 * (ONE as int) {
        spec_ln_norm_down(spec_divn_fx(m, 2), k + 1, (i - 1) as nat)
    } else {
        spec_ln_norm_down(m, k, (i - 1) as nat)
    }
}

/// One conditional range-reduction step toward [1, 2) from below: values
/// under 1 are doubled and the binary exponent is lowered.
pub open spec fn spec_ln_norm_up(m: int, k: int, i: nat) -> (int, int)
    decreases i,
{
    if i == 0 {
        (m, k)
    } else if m < ONE as int {
        spec_ln_norm_up(2 * m, k - 1, (i - 1) as nat)
    } else {
        spec_ln_norm_up(m, k, (i - 1) as nat)
    }
}

/// Running power and running sum of the area hyperbolic tangent series
/// after `j` terms beyond the linear one.
pub open spec fn spec_atanh_sum(z: int, j: nat) -> (int, int)
    decreases j,
{
    if j == 0 {
        (z, z)
    } else {
        let (p, s) = spec_atanh_sum(z, (j - 1) as nat);
        let p2 = spec_mul_fx(p, spec_mul_fx(z, z));
        (p2, spec_add_fx(s, spec_divn_fx(p2, 2 * (j as int) + 1)))
    }
}

/// Fixed-point natural logarithm: the argument is range-reduced into
/// [1, 2) by binary shifts, the logarithm of the mantissa comes from the
/// area hyperbolic tangent series, and the shifts contribute multiples of
/// ln 2. Arguments of at most zero yield zero.
pub open spec fn spec_ln_fx(x: int) -> int {
    if x <= 0 {
        0
    } else {
        let (m1, k1) = spec_ln_norm_down(x, 0, 63);
        let (m2, k2) = spec_ln_norm_up(m1, k1, 21);
        let z = spec_div_fx(spec_sub_fx(m2, ONE as int), spec_add_fx(m2, ONE as int));
        let s = spec_atanh_sum(z, 7).1;
        spec_sat(2 * s + k2 * (LN2_FX as int))
    }
}

/// Fixed-point natural logarithm, total.
pub fn ln_fx(x: i64) -> (r: i64)
    ensures
        r as int == spec_ln_fx(x as int),
{
    if x <= 0 {
        return 0;
    }
    let mut m: i64 = x;
    let mut k: i64 = 0;
    let mut i: i64 = 0;
    while i < 63
        invariant
            0 <= i <= 63,
            0 <= k <= i,
            1 <= m,
            spec_ln_norm_down(x as int, 0, 63)
                == spec_ln_norm_down(m as int, k as int, (63 - i) as nat),
        decreases 63 - i,
    {
        if m >= 2 * ONE {
            proof {
                vstd::arithmetic::div_mod::lemma_div_is_ordered(
                    2 * (ONE as int), m as int, 2);
            }
            m = divn_fx(m, 2);
            k = k + 1;
        }
        i = i + 1;
    }
    let ghost kd: int = k as int;
    let mut i2: i64 = 0;
    while i2 < 21
        invariant
            0 <= i2 <= 21,
            kd - i2 <= k as int <= kd,
            0 <= kd <= 63,
            1 <= m,
            spec_ln_norm_up(spec_ln_norm_down(x as int, 0, 63).0,
                spec_ln_norm_down(x as int, 0, 63).1, 21)
                == spec_ln_norm_up(m as int, k as int, (21 - i2) as nat),
        decreases 21 - i2,
    {
        if m < ONE {
            m = m * 2;
            k = k - 1;
        }
        i2 = i2 + 1;
    }
    let z: i64 = div_fx(sub_fx(m, ONE), add_fx(m, ONE));
    let mut p: i64 = z;
    let mut s: i64 = z;
    let mut j: i64 = 1;
    while j <= 7
        invariant
            1 <= j <= 8,
            (p as int, s as int) == spec_atanh_sum(z as int, (j - 1) as nat),
        decreases 8 - j,
    {
        p = mul_fx(p, mul_fx(z, z));
        s = add_fx(s, divn_fx(p, 2 * j + 1));
        j = j + 1;
    }
    assert((k as i128) * (LN2_FX as i128) == (k as int) * (LN2_FX as int)
        && iabs((k as int) * (LN2_FX as int)) <= 0x7fff_ffff_ffff_ffff * 0x100000)
        by (nonlinear_arith)
        requires
            i64::MIN <= k <= i64::MAX,
    {}
    let r128: i128 = 2 * (s as i128) + (k as i128) * (LN2_FX as i128);
    sat64(r128)
}

} // verus!
