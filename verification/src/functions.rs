//! Closed-form physical model functions: saturation vapor pressure,
//! pressure gradient, moist adiabatic lapse rate, dew point and boiling
//! point, all over the fixed-point representation. Each executable
//! function equals its spec-level counterpart exactly.
use vstd::prelude::*;
use crate::consts::{ONE, P0, KELVIN, MAGNUS_A, MAGNUS_B};
use crate::consts::{ES_C0, ES_C1, ES_C2, ES_C3, DP_C0, DP_C1, L_C0, L_C1, L_C2};
use crate::consts::{BOIL_INV_T, BOIL_RL};
use crate::fixed::{add_fx, sub_fx, mul_fx, div_fx, sat64, tdiv128};
use crate::fixed::{spec_add_fx, spec_sub_fx, spec_mul_fx, spec_div_fx};
use crate::fixed::{spec_tdiv, spec_exp_fx, spec_ln_fx, iabs};
use crate::fixed::{exp_fx, ln_fx};

verus! {

/// Saturation vapor pressure at temperature `t` (Celsius), by the Magnus
/// type approximation 6.1121 * exp((18.678 - t/234.5) * (t/(t+257.14))).
#[verifier::opaque]
pub open spec fn spec_calc_es(t: int) -> int {
    spec_mul_fx(
        ES_C0 as int,
        spec_exp_fx(spec_mul_fx(
            spec_sub_fx(ES_C1 as int, spec_div_fx(t, ES_C2 as int)),
            spec_div_fx(t, spec_add_fx(t, ES_C3 as int)),
        )),
    )
}

/// Rate of pressure change with altitude,
/// -34.171 * (p - 0.37776 * ues) / tk.
#[verifier::opaque]
pub open spec fn spec_calc_dp(p: int, ues: int, tk: int) -> int {
    spec_div_fx(
        spec_mul_fx(DP_C0 as int, spec_sub_fx(p, spec_mul_fx(DP_C1 as int, ues))),
        tk,
    )
}

/// Moist adiabatic lapse rate,
/// 9.7734 * (tk + 5420.3 * r) / (tk * tk + 8400955.5 * r) * tk
/// with the humidity ratio r = ues / (p - ues).
#[verifier::opaque]
pub open spec fn spec_calc_l(p: int, ues: int, tk: int) -> int {
    let r = spec_div_fx(ues, spec_sub_fx(p, ues));
    let num = spec_mul_fx(L_C0 as int, spec_add_fx(tk, spec_mul_fx(L_C1 as int, r)));
    let den = spec_add_fx(spec_mul_fx(tk, tk), spec_mul_fx(L_C2 as int, r));
    spec_mul_fx(spec_div_fx(num, den), tk)
}

/// Dew point temperature from surface temperature `t` and humidity
/// fraction `u`, by the inverse Magnus relation
/// B * (ln u + A t/(B + t)) / (A - ln u - A t/(B + t)).
#[verifier::opaque]
pub open spec fn spec_calc_dew(t: int, u: int) -> int {
    let g = spec_ln_fx(u);
    let h = spec_div_fx(spec_mul_fx(MAGNUS_A as int, t), spec_add_fx(MAGNUS_B as int, t));
    spec_div_fx(
        spec_mul_fx(MAGNUS_B as int, spec_add_fx(g, h)),
        spec_sub_fx(spec_sub_fx(MAGNUS_A as int, g), h),
    )
}

/// Boiling temperature at pressure `p`, by the inverse Clausius-Clapeyron
/// relation 1 / (1/(100 + 273.15) - 8.314/45070 * ln(p / P0)) - 273.15.
/// The reciprocal and the gas-constant ratio are carried at scale 1e12 to
/// keep the difference of the two small terms precise.
#[verifier::opaque]
pub open spec fn spec_calc_boil(p: int) -> int {
    let lnv = spec_ln_fx(spec_div_fx(p, P0 as int));
    let y = (BOIL_INV_T as int) - spec_tdiv((BOIL_RL as int) * lnv, ONE as int);
    spec_sub_fx(spec_tdiv(1_000_000_000_000_000_000, y), KELVIN as int)
}

/// Saturation vapor pressure at temperature `t`.
pub fn calc_es(t: i64) -> (r: i64)
    ensures
        r as int == spec_calc_es(t as int),
{
    proof {
        reveal(spec_calc_es);
    }
    mul_fx(
        ES_C0,
        exp_fx(mul_fx(
            sub_fx(ES_C1, div_fx(t, ES_C2)),
            div_fx(t, add_fx(t, ES_C3)),
        )),
    )
}

/// Rate of pressure change with altitude.
pub fn calc_dp(p: i64, ues: i64, tk: i64) -> (r: i64)
    ensures
        r as int == spec_calc_dp(p as int, ues as int, tk as int),
{
    proof {
        reveal(spec_calc_dp);
    }
    div_fx(mul_fx(DP_C0, sub_fx(p, mul_fx(DP_C1, ues))), tk)
}

/// Moist adiabatic lapse rate.
pub fn calc_l(p: i64, ues: i64, tk: i64) -> (r: i64)
    ensures
        r as int == spec_calc_l(p as int, ues as int, tk as int),
{
    proof {
        reveal(spec_calc_l);
    }
    let r = div_fx(ues, sub_fx(p, ues));
    let num = mul_fx(L_C0, add_fx(tk, mul_fx(L_C1, r)));
    let den = add_fx(mul_fx(tk, tk), mul_fx(L_C2, r));
    mul_fx(div_fx(num, den), tk)
}

/// Dew point temperature.
pub fn calc_dew(t: i64, u: i64) -> (r: i64)
    ensures
        r as int == spec_calc_dew(t as int, u as int),
{
    proof {
        reveal(spec_calc_dew);
    }
    let g = ln_fx(u);
    let h = div_fx(mul_fx(MAGNUS_A, t), add_fx(MAGNUS_B, t));
    div_fx(mul_fx(MAGNUS_B, add_fx(g, h)), sub_fx(sub_fx(MAGNUS_A, g), h))
}

/// Boiling temperature at pressure `p`.
pub fn calc_boil(p: i64) -> (r: i64)
    ensures
        r as int == spec_calc_boil(p as int),
{
    proof {
        reveal(spec_calc_boil);
    }
    let lnv = ln_fx(div_fx(p, P0));
    assert((BOIL_RL as i128) * (lnv as i128) == (BOIL_RL as int) * (lnv as int)
        && iabs((BOIL_RL as int) * (lnv as int)) <= 0x1000_0000_0000_0000_0000_0000)
        by (nonlinear_arith)
        requires
            i64::MIN <= lnv <= i64::MAX,
            BOIL_RL == 184_468_604int,
    {}
    let prod: i128 = (BOIL_RL as i128) * (lnv as i128);
    let scaled: i128 = tdiv128(prod, 1_000_000);
    let y: i128 = (BOIL_INV_T as i128) - scaled;
    let q: i128 = tdiv128(1_000_000_000_000_000_000, y);
    sub_fx(sat64(q), KELVIN)
}

} // verus!
