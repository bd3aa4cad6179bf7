//! The two fixed-step integration schemes over the atmospheric model: a
//! classical fourth-order Runge-Kutta scheme with step 0.1 km and an
//! explicit Euler scheme advancing each recorded 0.1 km step by ten 0.01 km
//! sub-steps. Both record five channels: pressure, temperature, lapse
//! rate, dew point and boiling point, the last three derived pointwise
//! from the pressure and temperature trajectory.
use vstd::prelude::*;
use crate::consts::{ONE, DH, DHE, KELVIN, STEPS};
use crate::fixed::{add_fx, sub_fx, mul_fx, divn_fx};
use crate::fixed::{spec_add_fx, spec_sub_fx, spec_mul_fx, spec_divn_fx};
use crate::functions::{calc_es, calc_dp, calc_l, calc_dew, calc_boil};
use crate::functions::{spec_calc_es, spec_calc_dp, spec_calc_l, spec_calc_dew, spec_calc_boil};

verus! {

/// The failure kinds a scheme surfaces instead of computing with
/// physically meaningless values.
#[derive(Clone, Copy, Debug, PartialEq, Eq, Structural)]
pub enum SchemeError {
    /// The humidity fraction lies outside (0, 1].
    InvalidHumidity,
    /// A computed channel value exceeds the coordinate range the curve
    /// simplifier accepts.
    ValueOutOfRange,
}

/// One trajectory of the five recorded channels, indexed by altitude
/// step: altitude of sample `i` is `i` times 0.1 km.
pub struct Trajectory5 {
    pub p: Vec<i64>,
    pub t: Vec<i64>,
    pub l: Vec<i64>,
    pub dew: Vec<i64>,
    pub boil: Vec<i64>,
}

/// The humidity fractions the schemes accept.
pub open spec fn spec_valid_humidity(u: int) -> bool {
    0 < u <= ONE as int
}

/// Lapse rate evaluated at a recorded state, the value both schemes
/// record in the lapse channel.
pub open spec fn spec_lapse_of(u: int, p: int, t: int) -> int {
    spec_calc_l(p, spec_mul_fx(u, spec_calc_es(t)), spec_add_fx(t, KELVIN as int))
}

/// One Runge-Kutta step of the pressure-temperature state: four stage
/// evaluations of the model, then the classical weighted average.
#[verifier::opaque]
pub open spec fn spec_rk4_step(u: int, p1: int, t1: int) -> (int, int) {
    let ues1 = spec_mul_fx(u, spec_calc_es(t1));
    let tk1 = spec_add_fx(t1, KELVIN as int);
    let kt1 = spec_calc_l(p1, ues1, tk1);
    let kp1 = spec_calc_dp(p1, ues1, tk1);
    let t2 = spec_sub_fx(t1, spec_divn_fx(spec_mul_fx(DH as int, kt1), 2));
    let p2 = spec_add_fx(p1, spec_divn_fx(spec_mul_fx(DH as int, kp1), 2));
    let ues2 = spec_mul_fx(u, spec_calc_es(t2));
    let tk2 = spec_add_fx(t2, KELVIN as int);
    let kt2 = spec_calc_l(p2, ues2, tk2);
    let kp2 = spec_calc_dp(p2, ues2, tk2);
    let t3 = spec_sub_fx(t1, spec_divn_fx(spec_mul_fx(DH as int, kt2), 2));
    let p3 = spec_add_fx(p1, spec_divn_fx(spec_mul_fx(DH as int, kp2), 2));
    let ues3 = spec_mul_fx(u, spec_calc_es(t3));
    let tk3 = spec_add_fx(t3, KELVIN as int);
    let kt3 = spec_calc_l(p3, ues3, tk3);
    let kp3 = spec_calc_dp(p3, ues3, tk3);
    let t4 = spec_sub_fx(t1, spec_mul_fx(DH as int, kt3));
    let p4 = spec_add_fx(p1, spec_mul_fx(DH as int, kp3));
    let ues4 = spec_mul_fx(u, spec_calc_es(t4));
    let tk4 = spec_add_fx(t4, KELVIN as int);
    let kt4 = spec_calc_l(p4, ues4, tk4);
    let kp4 = spec_calc_dp(p4, ues4, tk4);
    let psum = spec_add_fx(spec_add_fx(spec_add_fx(kp1, spec_add_fx(kp2, kp2)), spec_add_fx(kp3, kp3)), kp4);
    let tsum = spec_add_fx(spec_add_fx(spec_add_fx(kt1, spec_add_fx(kt2, kt2)), spec_add_fx(kt3, kt3)), kt4);
    let pn = spec_add_fx(p1, spec_divn_fx(spec_mul_fx(psum, DH as int), 6));
    let tn = spec_sub_fx(t1, spec_divn_fx(spec_mul_fx(tsum, DH as int), 6));
    (pn, tn)
}

/// The Runge-Kutta pressure-temperature state after `n` steps.
pub open spec fn spec_rk4_at(u: int, p0: int, t0: int, n: nat) -> (int, int)
    decreases n,
{
    if n == 0 {
        (p0, t0)
    } else {
        let (p, t) = spec_rk4_at(u, p0, t0, (n - 1) as nat);
        spec_rk4_step(u, p, t)
    }
}

/// One Euler sub-step: the temperature falls by the lapse rate at the
/// current state over 0.01 km, then the pressure follows the gradient
/// evaluated with the new temperature.
#[verifier::opaque]
pub open spec fn spec_euler_substep(u: int, p: int, t: int) -> (int, int) {
    let l = spec_lapse_of(u, p, t);
    let t1 = spec_sub_fx(t, spec_mul_fx(l, DHE as int));
    let ues1 = spec_mul_fx(u, spec_calc_es(t1));
    let tk1 = spec_add_fx(t1, KELVIN as int);
    let p1 = spec_add_fx(p, spec_mul_fx(DHE as int, spec_calc_dp(p, ues1, tk1)));
    (p1, t1)
}

/// The Euler pressure-temperature state after `k` sub-steps.
pub open spec fn spec_euler_substeps(u: int, p: int, t: int, k: nat) -> (int, int)
    decreases k,
{
    if k == 0 {
        (p, t)
    } else {
        let (p1, t1) = spec_euler_substeps(u, p, t, (k - 1) as nat);
        spec_euler_substep(u, p1, t1)
    }
}

/// The Euler pressure-temperature state after `n` recorded steps of ten
/// sub-steps each.
pub open spec fn spec_euler_at(u: int, p0: int, t0: int, n: nat) -> (int, int)
    decreases n,
{
    if n == 0 {
        (p0, t0)
    } else {
        let (p, t) = spec_euler_at(u, p0, t0, (n - 1) as nat);
        spec_euler_substeps(u, p, t, 10)
    }
}

/// What a returned trajectory holds when the recorded state sequence is
/// `at`: five channels of 111 samples, pressure and temperature following
/// `at`, and the lapse, dew point and boiling channels derived pointwise.
pub open spec fn spec_trajectory_follows(
    tr: Trajectory5,
    u: int,
    p0: int,
    t0: int,
    rk: bool,
) -> bool {
    &&& tr.p@.len() == STEPS as int
    &&& tr.t@.len() == STEPS as int
    &&& tr.l@.len() == STEPS as int
    &&& tr.dew@.len() == STEPS as int
    &&& tr.boil@.len() == STEPS as int
    &&& forall|i: int| #![trigger tr.p@[i]] 0 <= i < STEPS as int ==> {
        let s = if rk {
            spec_rk4_at(u, p0, t0, i as nat)
        } else {
            spec_euler_at(u, p0, t0, i as nat)
        };
        &&& tr.p@[i] as int == s.0
        &&& tr.t@[i] as int == s.1
        &&& tr.l@[i] as int == spec_lapse_of(u, s.0, s.1)
        &&& tr.dew@[i] as int == spec_calc_dew(s.1, u)
        &&& tr.boil@[i] as int == spec_calc_boil(s.0)
    }
}


/// One executable Runge-Kutta step, equal to its spec counterpart.
fn rk4_step(u: i64, p1: i64, t1: i64) -> (rr: (i64, i64))
    ensures
        (rr.0 as int, rr.1 as int) == spec_rk4_step(u as int, p1 as int, t1 as int),
{
    proof {
        reveal(spec_rk4_step);
    }
    let ues1 = mul_fx(u, calc_es(t1));
    let tk1 = add_fx(t1, KELVIN);
    let kt1 = calc_l(p1, ues1, tk1);
    let kp1 = calc_dp(p1, ues1, tk1);
    let t2 = sub_fx(t1, divn_fx(mul_fx(DH, kt1), 2));
    let p2 = add_fx(p1, divn_fx(mul_fx(DH, kp1), 2));
    let ues2 = mul_fx(u, calc_es(t2));
    let tk2 = add_fx(t2, KELVIN);
    let kt2 = calc_l(p2, ues2, tk2);
    let kp2 = calc_dp(p2, ues2, tk2);
    let t3 = sub_fx(t1, divn_fx(mul_fx(DH, kt2), 2));
    let p3 = add_fx(p1, divn_fx(mul_fx(DH, kp2), 2));
    let ues3 = mul_fx(u, calc_es(t3));
    let tk3 = add_fx(t3, KELVIN);
    let kt3 = calc_l(p3, ues3, tk3);
    let kp3 = calc_dp(p3, ues3, tk3);
    let t4 = sub_fx(t1, mul_fx(DH, kt3));
    let p4 = add_fx(p1, mul_fx(DH, kp3));
    let ues4 = mul_fx(u, calc_es(t4));
    let tk4 = add_fx(t4, KELVIN);
    let kt4 = calc_l(p4, ues4, tk4);
    let kp4 = calc_dp(p4, ues4, tk4);
    let psum = add_fx(add_fx(add_fx(kp1, add_fx(kp2, kp2)), add_fx(kp3, kp3)), kp4);
    let tsum = add_fx(add_fx(add_fx(kt1, add_fx(kt2, kt2)), add_fx(kt3, kt3)), kt4);
    let pn = add_fx(p1, divn_fx(mul_fx(psum, DH), 6));
    let tn = sub_fx(t1, divn_fx(mul_fx(tsum, DH), 6));
    (pn, tn)
}

/// One executable Euler sub-step, equal to its spec counterpart.
fn euler_substep(u: i64, p: i64, t: i64) -> (rr: (i64, i64))
    ensures
        (rr.0 as int, rr.1 as int) == spec_euler_substep(u as int, p as int, t as int),
{
    proof {
        reveal(spec_euler_substep);
    }
    let lc = calc_l(p, mul_fx(u, calc_es(t)), add_fx(t, KELVIN));
    let t1 = sub_fx(t, mul_fx(lc, DHE));
    let ues1 = mul_fx(u, calc_es(t1));
    let tk1 = add_fx(t1, KELVIN);
    let p1 = add_fx(p, mul_fx(DHE, calc_dp(p, ues1, tk1)));
    (p1, t1)
}

/// The three derived channel samples at a recorded state.
fn derived_at(u: i64, p: i64, t: i64) -> (rr: (i64, i64, i64))
    ensures
        rr.0 as int == spec_lapse_of(u as int, p as int, t as int),
        rr.1 as int == spec_calc_dew(t as int, u as int),
        rr.2 as int == spec_calc_boil(p as int),
{
    let lc = calc_l(p, mul_fx(u, calc_es(t)), add_fx(t, KELVIN));
    (lc, calc_dew(t, u), calc_boil(p))
}

/// Fourth-order Runge-Kutta integration of the atmospheric column from
/// initial pressure `p0` and temperature `t0` under humidity fraction
/// `u`. Rejects humidity fractions outside (0, 1]; otherwise the
/// recorded trajectory is exactly the fixed-point Runge-Kutta recurrence.
#[verifier::rlimit(100)]
pub fn rk4(u: i64, p0: i64, t0: i64) -> (r: Result<Trajectory5, SchemeError>)
    ensures
        r is Ok <==> spec_valid_humidity(u as int),
        r is Err ==> r == Result::<Trajectory5, SchemeError>::Err(SchemeError::InvalidHumidity),
        r matches Ok(tr) ==> spec_trajectory_follows(tr, u as int, p0 as int, t0 as int, true),
{
    if u <= 0 || u > ONE {
        return Err(SchemeError::InvalidHumidity);
    }
    let mut p: Vec<i64> = Vec::new();
    let mut t: Vec<i64> = Vec::new();
    let mut l: Vec<i64> = Vec::new();
    let mut dew: Vec<i64> = Vec::new();
    let mut boil: Vec<i64> = Vec::new();
    let mut pm: i64 = p0;
    let mut tm: i64 = t0;
    let d0 = derived_at(u, pm, tm);
    p.push(pm);
    t.push(tm);
    l.push(d0.0);
    dew.push(d0.1);
    boil.push(d0.2);
    let mut i: usize = 1;
    while i < STEPS
        invariant
            1 <= i <= STEPS,
            p@.len() == i as int,
            t@.len() == i as int,
            l@.len() == i as int,
            dew@.len() == i as int,
            boil@.len() == i as int,
            (pm as int, tm as int) == spec_rk4_at(u as int, p0 as int, t0 as int, (i - 1) as nat),
            forall|j: int| #![trigger p@[j]] 0 <= j < i as int ==> {
                let s = spec_rk4_at(u as int, p0 as int, t0 as int, j as nat);
                &&& p@[j] as int == s.0
                &&& t@[j] as int == s.1
                &&& l@[j] as int == spec_lapse_of(u as int, s.0, s.1)
                &&& dew@[j] as int == spec_calc_dew(s.1, u as int)
                &&& boil@[j] as int == spec_calc_boil(s.0)
            },
        decreases STEPS - i,
    {
        let step = rk4_step(u, pm, tm);
        assert(spec_rk4_at(u as int, p0 as int, t0 as int, i as nat)
            == spec_rk4_step(u as int,
                spec_rk4_at(u as int, p0 as int, t0 as int, (i - 1) as nat).0,
                spec_rk4_at(u as int, p0 as int, t0 as int, (i - 1) as nat).1));
        pm = step.0;
        tm = step.1;
        let d = derived_at(u, pm, tm);
        p.push(pm);
        t.push(tm);
        l.push(d.0);
        dew.push(d.1);
        boil.push(d.2);
        i = i + 1;
    }
    Ok(Trajectory5 { p, t, l, dew, boil })
}

/// Sub-stepped Euler integration of the atmospheric column: each of the
/// 110 recorded steps advances the state by ten explicit Euler sub-steps
/// of 0.01 km. Rejects humidity fractions outside (0, 1]; otherwise the
/// recorded trajectory is exactly the fixed-point Euler recurrence.
#[verifier::rlimit(100)]
pub fn euler(u: i64, p0: i64, t0: i64) -> (r: Result<Trajectory5, SchemeError>)
    ensures
        r is Ok <==> spec_valid_humidity(u as int),
        r is Err ==> r == Result::<Trajectory5, SchemeError>::Err(SchemeError::InvalidHumidity),
        r matches Ok(tr) ==> spec_trajectory_follows(tr, u as int, p0 as int, t0 as int, false),
{
    if u <= 0 || u > ONE {
        return Err(SchemeError::InvalidHumidity);
    }
    let mut p: Vec<i64> = Vec::new();
    let mut t: Vec<i64> = Vec::new();
    let mut l: Vec<i64> = Vec::new();
    let mut dew: Vec<i64> = Vec::new();
    let mut boil: Vec<i64> = Vec::new();
    let mut pm: i64 = p0;
    let mut tm: i64 = t0;
    let d0 = derived_at(u, pm, tm);
    p.push(pm);
    t.push(tm);
    l.push(d0.0);
    dew.push(d0.1);
    boil.push(d0.2);
    let mut i: usize = 1;
    while i < STEPS
        invariant
            1 <= i <= STEPS,
            p@.len() == i as int,
            t@.len() == i as int,
            l@.len() == i as int,
            dew@.len() == i as int,
            boil@.len() == i as int,
            (pm as int, tm as int) == spec_euler_at(u as int, p0 as int, t0 as int, (i - 1) as nat),
            forall|j: int| 0 <= j < i as int ==> #[trigger] p@[j] as int
                == spec_euler_at(u as int, p0 as int, t0 as int, j as nat).0,
            forall|j: int| 0 <= j < i as int ==> #[trigger] t@[j] as int
                == spec_euler_at(u as int, p0 as int, t0 as int, j as nat).1,
            forall|j: int| 0 <= j < i as int ==> #[trigger] l@[j] as int
                == spec_lapse_of(u as int,
                    spec_euler_at(u as int, p0 as int, t0 as int, j as nat).0,
                    spec_euler_at(u as int, p0 as int, t0 as int, j as nat).1),
            forall|j: int| 0 <= j < i as int ==> #[trigger] dew@[j] as int
                == spec_calc_dew(spec_euler_at(u as int, p0 as int, t0 as int, j as nat).1, u as int),
            forall|j: int| 0 <= j < i as int ==> #[trigger] boil@[j] as int
                == spec_calc_boil(spec_euler_at(u as int, p0 as int, t0 as int, j as nat).0),
        decreases STEPS - i,
    {
        let ghost pb: int = pm as int;
        let ghost tb: int = tm as int;
        let mut k: usize = 0;
        while k < 10
            invariant
                0 <= k <= 10,
                (pm as int, tm as int) == spec_euler_substeps(u as int, pb, tb, k as nat),
            decreases 10 - k,
        {
            let step = euler_substep(u, pm, tm);
            pm = step.0;
            tm = step.1;
            k = k + 1;
        }
        assert(spec_euler_at(u as int, p0 as int, t0 as int, i as nat)
            == spec_euler_substeps(u as int,
                spec_euler_at(u as int, p0 as int, t0 as int, (i - 1) as nat).0,
                spec_euler_at(u as int, p0 as int, t0 as int, (i - 1) as nat).1, 10));
        assert(pm as int == spec_euler_at(u as int, p0 as int, t0 as int, i as nat).0);
        assert(tm as int == spec_euler_at(u as int, p0 as int, t0 as int, i as nat).1);
        let d = derived_at(u, pm, tm);
        assert(d.0 as int == spec_lapse_of(u as int,
            spec_euler_at(u as int, p0 as int, t0 as int, i as nat).0,
            spec_euler_at(u as int, p0 as int, t0 as int, i as nat).1));
        assert(d.1 as int == spec_calc_dew(
            spec_euler_at(u as int, p0 as int, t0 as int, i as nat).1, u as int));
        assert(d.2 as int == spec_calc_boil(
            spec_euler_at(u as int, p0 as int, t0 as int, i as nat).0));
        p.push(pm);
        t.push(tm);
        l.push(d.0);
        dew.push(d.1);
        boil.push(d.2);
        i = i + 1;
    }
    Ok(Trajectory5 { p, t, l, dew, boil })
}


/// The pressure-temperature state after `n` recorded steps of the chosen
/// scheme.
pub open spec fn spec_state_at(u: int, p0: int, t0: int, rk: bool, n: nat) -> (int, int) {
    if rk {
        spec_rk4_at(u, p0, t0, n)
    } else {
        spec_euler_at(u, p0, t0, n)
    }
}

/// Sample `i` of channel `c` of the chosen scheme: pressure, temperature,
/// lapse rate, dew point and boiling point in that channel order.
pub open spec fn spec_sample(u: int, p0: int, t0: int, rk: bool, c: int, i: int) -> int {
    let s = spec_state_at(u, p0, t0, rk, i as nat);
    if c == 0 {
        s.0
    } else if c == 1 {
        s.1
    } else if c == 2 {
        spec_lapse_of(u, s.0, s.1)
    } else if c == 3 {
        spec_calc_dew(s.1, u)
    } else {
        spec_calc_boil(s.0)
    }
}

/// Channel `c` of the chosen scheme as a sequence of recorded samples.
pub open spec fn spec_chan(u: int, p0: int, t0: int, rk: bool, c: int) -> Seq<i64> {
    Seq::new(STEPS as nat, |i: int| spec_sample(u, p0, t0, rk, c, i) as i64)
}

proof fn lemma_substeps_in_range(u: int, p: int, t: int, k: nat)
    requires
        i64::MIN <= p <= i64::MAX,
        i64::MIN <= t <= i64::MAX,
    ensures
        i64::MIN <= spec_euler_substeps(u, p, t, k).0 <= i64::MAX,
        i64::MIN <= spec_euler_substeps(u, p, t, k).1 <= i64::MAX,
    decreases k,
{
    if k == 0 {
    } else {
        reveal(spec_euler_substep);
        lemma_substeps_in_range(u, p, t, (k - 1) as nat);
    }
}

/// Every recorded state of either scheme stays within the `i64` range,
/// because every fixed-point operation saturates.
pub proof fn lemma_state_in_range(u: int, p0: int, t0: int, rk: bool, n: nat)
    requires
        i64::MIN <= p0 <= i64::MAX,
        i64::MIN <= t0 <= i64::MAX,
    ensures
        i64::MIN <= spec_state_at(u, p0, t0, rk, n).0 <= i64::MAX,
        i64::MIN <= spec_state_at(u, p0, t0, rk, n).1 <= i64::MAX,
    decreases n,
{
    if n == 0 {
    } else {
        reveal(spec_rk4_step);
        lemma_state_in_range(u, p0, t0, rk, (n - 1) as nat);
        if !rk {
            let s = spec_euler_at(u, p0, t0, (n - 1) as nat);
            lemma_substeps_in_range(u, s.0, s.1, 10);
        }
    }
}

/// A trajectory that follows the recorded recurrence pointwise holds, as
/// plain vectors, exactly the five spec-level channel sequences.
#[verifier::rlimit(100)]
pub proof fn lemma_trajectory_channels(tr: Trajectory5, u: int, p0: int, t0: int, rk: bool)
    requires
        spec_trajectory_follows(tr, u, p0, t0, rk),
        i64::MIN <= p0 <= i64::MAX,
        i64::MIN <= t0 <= i64::MAX,
    ensures
        tr.p@ == spec_chan(u, p0, t0, rk, 0),
        tr.t@ == spec_chan(u, p0, t0, rk, 1),
        tr.l@ == spec_chan(u, p0, t0, rk, 2),
        tr.dew@ == spec_chan(u, p0, t0, rk, 3),
        tr.boil@ == spec_chan(u, p0, t0, rk, 4),
{
    assert forall|i: int|
        #![trigger tr.p@[i]]
        #![trigger tr.t@[i]]
        #![trigger tr.l@[i]]
        #![trigger tr.dew@[i]]
        #![trigger tr.boil@[i]]
        0 <= i < STEPS as int implies {
        &&& tr.p@[i] == spec_chan(u, p0, t0, rk, 0)[i]
        &&& tr.t@[i] == spec_chan(u, p0, t0, rk, 1)[i]
        &&& tr.l@[i] == spec_chan(u, p0, t0, rk, 2)[i]
        &&& tr.dew@[i] == spec_chan(u, p0, t0, rk, 3)[i]
        &&& tr.boil@[i] == spec_chan(u, p0, t0, rk, 4)[i]
    } by {
        let s = spec_state_at(u, p0, t0, rk, i as nat);
        assert(tr.p@[i] as int == s.0);
        lemma_state_in_range(u, p0, t0, rk, i as nat);
    }
    assert(tr.p@ =~= spec_chan(u, p0, t0, rk, 0));
    assert(tr.t@ =~= spec_chan(u, p0, t0, rk, 1));
    assert(tr.l@ =~= spec_chan(u, p0, t0, rk, 2));
    assert(tr.dew@ =~= spec_chan(u, p0, t0, rk, 3));
    assert(tr.boil@ =~= spec_chan(u, p0, t0, rk, 4));
}

} // verus!
