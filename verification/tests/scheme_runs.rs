use atmos::consts::{COORD_LIMIT, ONE};
use atmos::schemes::SchemeError;
use atmos::{euler_scheme, rk4_scheme, run_scheme, Integrator};

// split a flat scheme result into its five [count, xs.., ys..] blocks
fn blocks(flat: &[i64]) -> Vec<(Vec<i64>, Vec<i64>)> {
    let mut out = Vec::new();
    let mut pos = 0usize;
    while pos < flat.len() {
        let n = flat[pos] as usize;
        let xs = flat[pos + 1..pos + 1 + n].to_vec();
        let ys = flat[pos + 1 + n..pos + 1 + 2 * n].to_vec();
        out.push((xs, ys));
        pos += 1 + 2 * n;
    }
    out
}

#[test]
fn rk4_scheme_produces_five_blocks() {
    let flat = rk4_scheme(ONE).unwrap();
    let bs = blocks(&flat);
    assert_eq!(bs.len(), 5);
    for (xs, ys) in &bs {
        assert!(xs.len() >= 2 && xs.len() <= 111);
        assert_eq!(xs.len(), ys.len());
        assert_eq!(xs[0], 0);
        assert_eq!(*xs.last().unwrap(), 11_000_000);
        for i in 0..xs.len() - 1 {
            assert!(xs[i] < xs[i + 1]);
        }
    }
    // the pressure block starts at the initial pressure, the temperature
    // block at the initial temperature
    assert_eq!(bs[0].1[0], 1_013_250_000);
    assert_eq!(bs[1].1[0], 15_000_000);
}

#[test]
fn euler_scheme_produces_five_blocks() {
    let flat = euler_scheme(ONE).unwrap();
    let bs = blocks(&flat);
    assert_eq!(bs.len(), 5);
    for (xs, ys) in &bs {
        assert!(xs.len() >= 2 && xs.len() <= 111);
        assert_eq!(xs[0], 0);
        assert_eq!(*xs.last().unwrap(), 11_000_000);
    }
    assert_eq!(bs[0].1[0], 1_013_250_000);
    assert_eq!(bs[1].1[0], 15_000_000);
}

#[test]
fn schemes_reject_invalid_humidity() {
    assert!(matches!(euler_scheme(0), Err(SchemeError::InvalidHumidity)));
    assert!(matches!(rk4_scheme(-1), Err(SchemeError::InvalidHumidity)));
    assert!(matches!(euler_scheme(ONE + 1), Err(SchemeError::InvalidHumidity)));
    assert!(matches!(
        run_scheme(Integrator::Rk4, 2 * ONE, 20_000),
        Err(SchemeError::InvalidHumidity)
    ));
}

#[test]
fn wide_tolerance_leaves_only_endpoints() {
    let flat = run_scheme(Integrator::Rk4, ONE, 3 * COORD_LIMIT).unwrap();
    let bs = blocks(&flat);
    assert_eq!(flat.len(), 25);
    for (xs, _) in &bs {
        assert_eq!(xs.len(), 2);
        assert_eq!(xs[0], 0);
        assert_eq!(xs[1], 11_000_000);
    }
}

#[test]
fn zero_tolerance_keeps_bending_curves_whole() {
    // at tolerance zero only exactly colinear samples may drop out, so
    // the strictly curved pressure channel keeps all 111 points
    let flat = run_scheme(Integrator::Rk4, ONE, 0).unwrap();
    let bs = blocks(&flat);
    assert_eq!(bs.len(), 5);
    assert_eq!(bs[0].0.len(), 111);
}

#[test]
fn scheme_simplification_is_effective() {
    // at the standard tolerance each channel compresses well below the
    // 111 input samples
    let flat = rk4_scheme(ONE).unwrap();
    for (xs, _) in &blocks(&flat) {
        assert!(xs.len() < 40);
    }
}

#[test]
fn euler_and_rk4_schemes_agree_roughly() {
    let a = blocks(&rk4_scheme(ONE).unwrap());
    let b = blocks(&euler_scheme(ONE).unwrap());
    // same channel layout, and both keep the whole altitude span
    assert_eq!(a.len(), b.len());
    for ((xa, _), (xb, _)) in a.iter().zip(b.iter()) {
        assert_eq!(xa[0], xb[0]);
        assert_eq!(xa.last(), xb.last());
    }
}
