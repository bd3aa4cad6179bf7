//! Fixed-point model of an atmospheric column: pressure, temperature and
//! lapse rate are integrated over altitude with either a fourth-order
//! Runge-Kutta scheme or a sub-stepped Euler scheme, dew point and boiling
//! point are derived pointwise, and the resulting curves are compressed
//! with the Ramer-Douglas-Peucker polyline simplifier.
//!
//! All quantities are scaled integers: a value `v` stands for the real
//! number `v / 1_000_000`. Every public function carries a contract that
//! pins its result down exactly over that representation.
pub mod consts;
pub mod fixed;
pub mod functions;
pub mod schemes;
pub mod algorithms;

use vstd::prelude::*;
use crate::consts::{P0, T0, DH, STEPS, SCHEME_EPSILON, COORD_LIMIT, EPSILON_LIMIT};
use crate::fixed::iabs;
use crate::schemes::{rk4, euler, SchemeError};
use crate::schemes::{spec_valid_humidity, spec_chan, lemma_trajectory_channels};
use crate::algorithms::{ramer_douglas_peucker, spec_rdp_flat, spec_polyline_ok};

verus! {

/// Which integration scheme drives a run.
#[derive(Clone, Copy, Debug, PartialEq, Eq, Structural)]
pub enum Integrator {
    Euler,
    Rk4,
}

/// The shared altitude axis: 111 samples from 0.0 to 11.0 km in steps
/// of 0.1 km.
pub open spec fn spec_axis() -> Seq<i64> {
    Seq::new(STEPS as nat, |i: int| (i * (DH as int)) as i64)
}

/// Build the altitude axis the schemes simplify against.
pub fn altitude_axis() -> (r: Vec<i64>)
    ensures
        r@ == spec_axis(),
{
    let mut v: Vec<i64> = Vec::new();
    let mut i: usize = 0;
    while i < STEPS
        invariant
            i <= STEPS,
            v@.len() == i as int,
            forall|j: int| 0 <= j < i as int ==> #[trigger] v@[j] == spec_axis()[j],
        decreases STEPS - i,
    {
        v.push((i as i64) * DH);
        i = i + 1;
    }
    proof {
        assert(v@ =~= spec_axis());
    }
    v
}

/// Whether every sample of a channel lies within the coordinate range
/// the simplifier accepts.
pub open spec fn spec_channel_ok(s: Seq<i64>) -> bool {
    forall|i: int| 0 <= i < s.len() ==> iabs(#[trigger] s[i] as int) <= COORD_LIMIT as int
}

fn channel_ok(v: &Vec<i64>) -> (ok: bool)
    ensures
        ok == spec_channel_ok(v@),
{
    let mut i: usize = 0;
    let mut ok: bool = true;
    while i < v.len()
        invariant
            i <= v@.len(),
            ok == (forall|j: int| 0 <= j < i as int
                ==> iabs(#[trigger] v@[j] as int) <= COORD_LIMIT as int),
        decreases v@.len() - i,
    {
        let val = v[i];
        if val < -COORD_LIMIT || val > COORD_LIMIT {
            ok = false;
        }
        i = i + 1;
    }
    ok
}

/// Whether all five channels of the chosen scheme stay within the
/// simplifier's coordinate range.
pub open spec fn spec_channels_ok(u: int, rk: bool) -> bool {
    forall|c: int| 0 <= c < 5
        ==> spec_channel_ok(#[trigger] spec_chan(u, P0 as int, T0 as int, rk, c))
}

/// The flat result of a scheme run: each of the five channels simplified
/// against the altitude axis and flattened, concatenated in channel
/// order.
pub open spec fn spec_scheme_flat(u: int, rk: bool, eps: int) -> Seq<i64> {
    spec_rdp_flat(spec_axis(), spec_chan(u, P0 as int, T0 as int, rk, 0), eps)
        + spec_rdp_flat(spec_axis(), spec_chan(u, P0 as int, T0 as int, rk, 1), eps)
        + spec_rdp_flat(spec_axis(), spec_chan(u, P0 as int, T0 as int, rk, 2), eps)
        + spec_rdp_flat(spec_axis(), spec_chan(u, P0 as int, T0 as int, rk, 3), eps)
        + spec_rdp_flat(spec_axis(), spec_chan(u, P0 as int, T0 as int, rk, 4), eps)
}

/// Run one scheme: integrate from the standard initial pressure and
/// temperature, then simplify every channel against the altitude axis
/// under the given tolerance and concatenate the five flat encodings.
/// Humidity fractions outside (0, 1] are rejected, and so is a
/// trajectory whose values leave the simplifier's exact-arithmetic
/// range.
pub fn run_scheme(integrator: Integrator, u: i64, tolerance: i64) -> (r: Result<
    Vec<i64>,
    SchemeError,
>)
    requires
        0 <= tolerance <= EPSILON_LIMIT,
    ensures
        ({
            let rk = integrator is Rk4;
            &&& (r == Result::<Vec<i64>, SchemeError>::Err(SchemeError::InvalidHumidity)
                <==> !spec_valid_humidity(u as int))
            &&& spec_valid_humidity(u as int) && spec_channels_ok(u as int, rk) ==> (r matches Ok(v)
                && v@ == spec_scheme_flat(u as int, rk, tolerance as int))
            &&& spec_valid_humidity(u as int) && !spec_channels_ok(u as int, rk) ==> r
                == Result::<Vec<i64>, SchemeError>::Err(SchemeError::ValueOutOfRange)
        }),
{
    let ghost rk = integrator is Rk4;
    let tr_res = match integrator {
        Integrator::Euler => euler(u, P0, T0),
        Integrator::Rk4 => rk4(u, P0, T0),
    };
    let tr = match tr_res {
        Result::Err(e) => {
            return Err(e);
        },
        Result::Ok(tr) => tr,
    };
    proof {
        lemma_trajectory_channels(tr, u as int, P0 as int, T0 as int, rk);
    }
    let ok = channel_ok(&tr.p) && channel_ok(&tr.t) && channel_ok(&tr.l) && channel_ok(&tr.dew)
        && channel_ok(&tr.boil);
    if !ok {
        proof {
            assert(!spec_channels_ok(u as int, rk));
        }
        return Err(SchemeError::ValueOutOfRange);
    }
    proof {
        assert forall|c: int| 0 <= c < 5 implies spec_channel_ok(
            #[trigger] spec_chan(u as int, P0 as int, T0 as int, rk, c),
        ) by {
            if c == 0 {
                assert(spec_chan(u as int, P0 as int, T0 as int, rk, c) == tr.p@);
            } else if c == 1 {
                assert(spec_chan(u as int, P0 as int, T0 as int, rk, c) == tr.t@);
            } else if c == 2 {
                assert(spec_chan(u as int, P0 as int, T0 as int, rk, c) == tr.l@);
            } else if c == 3 {
                assert(spec_chan(u as int, P0 as int, T0 as int, rk, c) == tr.dew@);
            } else {
                assert(spec_chan(u as int, P0 as int, T0 as int, rk, c) == tr.boil@);
            }
        }
    }
    let axis = altitude_axis();
    proof {
        assert forall|j: int| 0 <= j < spec_axis().len() implies iabs(
            #[trigger] spec_axis()[j] as int,
        ) <= COORD_LIMIT as int by {
            assert(0 <= j * (DH as int) <= 110 * (DH as int)) by (nonlinear_arith)
                requires
                    0 <= j <= 110,
                    DH == 100_000int,
            {}
        }
        assert(spec_polyline_ok(axis@, tr.p@));
        assert(spec_polyline_ok(axis@, tr.t@));
        assert(spec_polyline_ok(axis@, tr.l@));
        assert(spec_polyline_ok(axis@, tr.dew@));
        assert(spec_polyline_ok(axis@, tr.boil@));
    }
    let mut out: Vec<i64> = Vec::new();
    let mut b0 = ramer_douglas_peucker(&axis, &tr.p, tolerance);
    out.append(&mut b0);
    let ghost o1 = out@;
    let mut b1 = ramer_douglas_peucker(&axis, &tr.t, tolerance);
    out.append(&mut b1);
    let ghost o2 = out@;
    let mut b2 = ramer_douglas_peucker(&axis, &tr.l, tolerance);
    out.append(&mut b2);
    let ghost o3 = out@;
    let mut b3 = ramer_douglas_peucker(&axis, &tr.dew, tolerance);
    out.append(&mut b3);
    let ghost o4 = out@;
    let mut b4 = ramer_douglas_peucker(&axis, &tr.boil, tolerance);
    out.append(&mut b4);
    proof {
        assert(out@ =~= spec_scheme_flat(u as int, rk, tolerance as int));
    }
    Ok(out)
}

/// Run the Euler scheme at the standard tolerance of 0.02 and return the
/// five concatenated flat channel encodings.
pub fn euler_scheme(u: i64) -> (r: Result<Vec<i64>, SchemeError>)
    ensures
        (r == Result::<Vec<i64>, SchemeError>::Err(SchemeError::InvalidHumidity)
            <==> !spec_valid_humidity(u as int)),
        spec_valid_humidity(u as int) && spec_channels_ok(u as int, false) ==> (r matches Ok(v)
            && v@ == spec_scheme_flat(u as int, false, SCHEME_EPSILON as int)),
        spec_valid_humidity(u as int) && !spec_channels_ok(u as int, false) ==> r
            == Result::<Vec<i64>, SchemeError>::Err(SchemeError::ValueOutOfRange),
{
    run_scheme(Integrator::Euler, u, SCHEME_EPSILON)
}

/// Run the Runge-Kutta scheme at the standard tolerance of 0.02 and
/// return the five concatenated flat channel encodings.
pub fn rk4_scheme(u: i64) -> (r: Result<Vec<i64>, SchemeError>)
    ensures
        (r == Result::<Vec<i64>, SchemeError>::Err(SchemeError::InvalidHumidity)
            <==> !spec_valid_humidity(u as int)),
        spec_valid_humidity(u as int) && spec_channels_ok(u as int, true) ==> (r matches Ok(v)
            && v@ == spec_scheme_flat(u as int, true, SCHEME_EPSILON as int)),
        spec_valid_humidity(u as int) && !spec_channels_ok(u as int, true) ==> r
            == Result::<Vec<i64>, SchemeError>::Err(SchemeError::ValueOutOfRange),
{
    run_scheme(Integrator::Rk4, u, SCHEME_EPSILON)
}

} // verus!
