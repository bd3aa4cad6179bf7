use atmos::algorithms::ramer_douglas_peucker;
use atmos::consts::{COORD_LIMIT, ONE, P0, T0};
use atmos::schemes::rk4;

fn simplify(x: &[i64], y: &[i64], eps: i64) -> Vec<i64> {
    ramer_douglas_peucker(&x.to_vec(), &y.to_vec(), eps)
}

#[test]
fn peaks_and_troughs_survive() {
    let x = [0, 1_000_000, 2_000_000, 3_000_000, 4_000_000];
    let y = [0, 1_000_000, 0, 1_000_000, 0];
    let r = simplify(&x, &y, 100_000);
    assert_eq!(
        r,
        vec![5, 0, 1_000_000, 2_000_000, 3_000_000, 4_000_000, 0, 1_000_000, 0, 1_000_000, 0]
    );
}

#[test]
fn colinear_run_collapses_to_endpoints() {
    let x = [0, 1_000_000, 2_000_000, 3_000_000];
    let y = [1_000_000, 3_000_000, 5_000_000, 7_000_000];
    let r = simplify(&x, &y, 100_000);
    assert_eq!(r, vec![2, 0, 3_000_000, 1_000_000, 7_000_000]);
}

#[test]
fn zero_epsilon_keeps_every_bend() {
    let x = [0, 1_000_000, 2_000_000, 3_000_000, 4_000_000];
    let y = [0, 1_000_000, 0, 1_000_000, 0];
    let r = simplify(&x, &y, 0);
    assert_eq!(r[0], 5);
}

#[test]
fn zero_epsilon_still_drops_exactly_colinear_points() {
    let x = [0, 1_000_000, 2_000_000];
    let y = [0, 1_000_000, 2_000_000];
    let r = simplify(&x, &y, 0);
    assert_eq!(r, vec![2, 0, 2_000_000, 0, 2_000_000]);
}

#[test]
fn huge_epsilon_keeps_only_endpoints() {
    let x = [0, 1_000_000, 2_000_000, 3_000_000, 4_000_000];
    let y = [0, 1_000_000, 0, 1_000_000, 0];
    let r = simplify(&x, &y, 3 * COORD_LIMIT);
    assert_eq!(r, vec![2, 0, 4_000_000, 0, 0]);
}

#[test]
fn count_bounds_and_endpoints() {
    let x = [0, 1_000_000, 2_000_000, 3_000_000, 4_000_000, 5_000_000];
    let y = [0, 900_000, -300_000, 150_000, 40_000, 700_000];
    for eps in [0i64, 10_000, 100_000, 1_000_000, 10_000_000] {
        let r = simplify(&x, &y, eps);
        let n = r[0] as usize;
        assert!(n >= 2 && n <= x.len());
        assert_eq!(r.len(), 1 + 2 * n);
        let xs = &r[1..1 + n];
        let ys = &r[1 + n..];
        assert_eq!(xs[0], x[0]);
        assert_eq!(xs[n - 1], *x.last().unwrap());
        assert_eq!(ys[0], y[0]);
        assert_eq!(ys[n - 1], *y.last().unwrap());
        for i in 0..n - 1 {
            assert!(xs[i] < xs[i + 1], "x not strictly increasing at eps {eps}");
        }
    }
}

#[test]
fn identical_endpoints_treated_as_zero_distance() {
    // a closed chord has no direction; every interior point counts as on it
    let x = [0, 1_000_000, 0];
    let y = [0, 1_000_000, 0];
    let r = simplify(&x, &y, 100_000);
    assert_eq!(r, vec![2, 0, 0, 0, 0]);
}

#[test]
fn vertical_chord_measured_exactly() {
    // a slope-based distance would divide by zero here; the
    // cross-product comparison measures the far point exactly
    let x = [0, 1_000_000, 0];
    let y = [0, 500_000, 1_000_000];
    let r = simplify(&x, &y, 100_000);
    assert_eq!(r, vec![3, 0, 1_000_000, 0, 0, 500_000, 1_000_000]);
}

#[test]
fn idempotent_on_synthetic_polyline() {
    let x = [0, 1_000_000, 2_000_000, 3_000_000, 4_000_000];
    let y = [0, 1_000_000, 0, 1_000_000, 0];
    let r = simplify(&x, &y, 100_000);
    let n = r[0] as usize;
    let again = simplify(&r[1..1 + n], &r[1 + n..], 100_000);
    assert_eq!(again, r);
}

#[test]
fn idempotent_on_integrated_channels() {
    let tr = rk4(ONE, P0, T0).unwrap();
    let axis: Vec<i64> = (0..111).map(|i| i * 100_000).collect();
    for chan in [&tr.p, &tr.t, &tr.l, &tr.dew, &tr.boil] {
        let r = ramer_douglas_peucker(&axis, chan, 20_000);
        let n = r[0] as usize;
        assert!(n >= 2 && n <= 111);
        let again = simplify(&r[1..1 + n], &r[1 + n..], 20_000);
        assert_eq!(again, r, "rerunning the simplifier changed a channel");
    }
}
