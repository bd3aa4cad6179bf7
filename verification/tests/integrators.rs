use atmos::consts::{ONE, P0, T0};
use atmos::functions::{calc_boil, calc_dew, calc_dp, calc_es, calc_l};
use atmos::fixed::{exp_fx, ln_fx};
use atmos::schemes::{euler, rk4, SchemeError};

#[test]
fn exp_exact_values() {
    assert_eq!(exp_fx(0), 1_000_000);
    let e1 = exp_fx(ONE);
    assert!((e1 - 2_718_282).abs() <= 2, "exp(1) = {e1}");
    let em1 = exp_fx(-ONE);
    assert!((em1 - 367_879).abs() <= 2, "exp(-1) = {em1}");
    assert_eq!(exp_fx(-25_000_000), 0);
}

#[test]
fn ln_exact_values() {
    assert_eq!(ln_fx(ONE), 0);
    assert_eq!(ln_fx(2 * ONE), 693_147);
    let lne = ln_fx(2_718_282);
    assert!((lne - ONE).abs() <= 10, "ln(e) = {lne}");
    assert_eq!(ln_fx(0), 0);
    assert_eq!(ln_fx(-5), 0);
}

#[test]
fn vapor_pressure_values() {
    // exp(0) is exact, so the leading factor comes through unchanged
    assert_eq!(calc_es(0), 6_112_100);
    let es15 = calc_es(T0);
    assert!((es15 - 17_051_000).abs() < 60_000, "es(15) = {es15}");
}

#[test]
fn pressure_gradient_value() {
    let ues = calc_es(T0);
    let tk = T0 + 273_150_000;
    let g = calc_dp(P0, ues, tk);
    assert!((g - -119_395_000).abs() < 60_000, "dp = {g}");
}

#[test]
fn lapse_rate_value() {
    let ues = calc_es(T0);
    let tk = T0 + 273_150_000;
    let l = calc_l(P0, ues, tk);
    assert!((l - 4_729_000).abs() < 30_000, "l = {l}");
}

#[test]
fn dew_point_saturated_equals_temperature() {
    let d = calc_dew(T0, ONE);
    assert!((d - T0).abs() < 1_000, "dew(15, 1) = {d}");
}

#[test]
fn boiling_point_at_reference_pressure() {
    assert_eq!(calc_boil(P0), 100_000_000);
}

#[test]
fn rk4_initial_conditions() {
    let tr = rk4(ONE, P0, T0).unwrap();
    assert_eq!(tr.p.len(), 111);
    assert_eq!(tr.t.len(), 111);
    assert_eq!(tr.l.len(), 111);
    assert_eq!(tr.dew.len(), 111);
    assert_eq!(tr.boil.len(), 111);
    assert_eq!(tr.p[0], 1_013_250_000);
    assert_eq!(tr.t[0], 15_000_000);
}

#[test]
fn euler_initial_conditions() {
    let tr = euler(ONE, P0, T0).unwrap();
    assert_eq!(tr.p.len(), 111);
    assert_eq!(tr.p[0], 1_013_250_000);
    assert_eq!(tr.t[0], 15_000_000);
}

#[test]
fn temperature_monotone_rk4() {
    for u in [200_000i64, 500_000, ONE] {
        let tr = rk4(u, P0, T0).unwrap();
        for i in 0..110 {
            assert!(
                tr.t[i + 1] <= tr.t[i],
                "u={u}: t[{}]={} rose above t[{}]={}",
                i + 1,
                tr.t[i + 1],
                i,
                tr.t[i]
            );
        }
    }
}

#[test]
fn temperature_monotone_euler() {
    for u in [200_000i64, 500_000, ONE] {
        let tr = euler(u, P0, T0).unwrap();
        for i in 0..110 {
            assert!(tr.t[i + 1] <= tr.t[i]);
        }
    }
}

#[test]
fn pressure_decreases_with_altitude() {
    let tr = rk4(ONE, P0, T0).unwrap();
    for i in 0..110 {
        assert!(tr.p[i + 1] < tr.p[i]);
    }
}

#[test]
fn integrators_agree_on_shared_samples() {
    // both schemes record the same altitudes; their temperature channels
    // must stay within 0.5 degrees of each other
    for u in [200_000i64, ONE] {
        let a = rk4(u, P0, T0).unwrap();
        let b = euler(u, P0, T0).unwrap();
        for i in 0..111 {
            let d = (a.t[i] - b.t[i]).abs();
            assert!(d < 500_000, "u={u}: step {i} differs by {d}");
        }
    }
}

#[test]
fn humidity_zero_rejected() {
    assert!(matches!(rk4(0, P0, T0), Err(SchemeError::InvalidHumidity)));
    assert!(matches!(euler(0, P0, T0), Err(SchemeError::InvalidHumidity)));
}

#[test]
fn humidity_above_one_rejected() {
    assert!(matches!(rk4(ONE + 1, P0, T0), Err(SchemeError::InvalidHumidity)));
    assert!(matches!(euler(-5, P0, T0), Err(SchemeError::InvalidHumidity)));
}

#[test]
fn derived_channels_plausible() {
    let tr = rk4(ONE, P0, T0).unwrap();
    // boiling point falls with altitude but stays between 60 and 100
    assert_eq!(tr.boil[0], 100_000_000);
    assert!(tr.boil[110] > 60_000_000 && tr.boil[110] < 100_000_000);
    // at full saturation the dew point tracks the temperature from above
    for i in 0..111 {
        assert!((tr.dew[i] - tr.t[i]).abs() < 100_000);
    }
}
