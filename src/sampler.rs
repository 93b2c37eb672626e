use vstd::prelude::*;

use crate::config::RunConfig;

verus! {

/// The emission rule: a point is due when the elapsed fraction of the run,
/// `time / simulation_time`, exceeds the fraction of the point budget already
/// used, `emitted / points_to_show`. Both sides are multiplied out so that the
/// comparison is exact; with a zero duration no point is due at time zero,
/// the only time the stepping loop then visits.
pub open spec fn emission_due(time: int, simulation_time: int, emitted: int, points_to_show: int) -> bool {
    time * points_to_show > emitted * simulation_time
}

/// Decides whether the state at `time_us` becomes a trajectory point, given
/// that `emitted` points of this walker have been produced so far.
pub fn should_emit(time_us: u64, simulation_time_us: u64, emitted: u64, points_to_show: u64) -> (r: bool)
    ensures
        r == emission_due(time_us as int, simulation_time_us as int, emitted as int, points_to_show as int),
{
    proof {
        lemma_product_fits(time_us as int, points_to_show as int);
        lemma_product_fits(emitted as int, simulation_time_us as int);
    }
    let lhs = time_us as u128 * points_to_show as u128;
    let rhs = emitted as u128 * simulation_time_us as u128;
    lhs > rhs
}

/// Points each walker has emitted before pass `k` of the stepping loop: the
/// starting point, plus one for each earlier pass on which a point was due.
/// The rule reads only the time and the count, so all walkers share this count.
pub open spec fn emitted_before(c: RunConfig, k: nat) -> nat
    decreases k,
{
    if k == 0 {
        1
    } else {
        let prev = emitted_before(c, (k - 1) as nat);
        if emission_due(c.time_at(k - 1), c.simulation_time_us as int, prev as int, c.points_to_show as int) {
            prev + 1
        } else {
            prev
        }
    }
}

/// Whether every walker emits a point on pass `k` of the stepping loop.
pub open spec fn emits_at(c: RunConfig, k: nat) -> bool {
    emission_due(c.time_at(k as int), c.simulation_time_us as int, emitted_before(c, k) as int, c.points_to_show as int)
}

/// Before any pass of the stepping loop, a walker has emitted at least its
/// starting point and never more than the point budget.
pub proof fn lemma_emitted_within_budget(c: RunConfig, k: nat)
    requires
        c.wf(),
        k <= c.pass_count(),
    ensures
        1 <= emitted_before(c, k) <= c.points_to_show,
    decreases k,
{
    if k > 0 {
        let j = (k - 1) as nat;
        lemma_emitted_within_budget(c, j);
        crate::config::lemma_pass_times(c);
        assert(c.time_at(j as int) <= c.simulation_time_us);
        let e = emitted_before(c, j) as int;
        let t = c.time_at(j as int);
        let big_t = c.simulation_time_us as int;
        let p = c.points_to_show as int;
        if emission_due(t, big_t, e, p) {
            assert(e < p) by (nonlinear_arith)
                requires t * p > e * big_t, 0 <= t <= big_t, p > 0, e >= 1;
        }
    }
}

/// When one step advances the elapsed fraction of the run by at most one
/// budget share (`timestep * points_to_show <= simulation_time`), the rule never
/// falls more than one point behind: after pass `k - 1`,
/// `(emitted + 1) * simulation_time > time * points_to_show`.
pub proof fn lemma_emitted_keeps_up(c: RunConfig, k: nat)
    requires
        c.wf(),
        c.timestep_us * c.points_to_show <= c.simulation_time_us,
        1 <= k <= c.pass_count(),
    ensures
        (emitted_before(c, k) + 1) * c.simulation_time_us > c.time_at(k - 1) * c.points_to_show,
    decreases k,
{
    let big_t = c.simulation_time_us as int;
    let p = c.points_to_show as int;
    let d = c.timestep_us as int;
    assert(big_t > 0) by (nonlinear_arith)
        requires d * p <= big_t, d > 0, p > 0;
    let e = emitted_before(c, k) as int;
    let t = c.time_at(k - 1);
    if k == 1 {
        assert(t == 0);
        assert(e >= 1);
        assert((e + 1) * big_t > t * p) by (nonlinear_arith)
            requires e >= 1, big_t > 0, t == 0;
    } else {
        lemma_emitted_keeps_up(c, (k - 1) as nat);
        let e0 = emitted_before(c, (k - 1) as nat) as int;
        let t0 = c.time_at(k - 2);
        assert(t == t0 + d) by (nonlinear_arith)
            requires t == (k - 1) * d, t0 == (k - 2) * d;
        if emission_due(t, big_t, e0, p) {
            assert(e == e0 + 1);
            assert((e + 1) * big_t > t * p) by (nonlinear_arith)
                requires (e0 + 1) * big_t > t0 * p, e == e0 + 1, t == t0 + d, d * p <= big_t;
        } else {
            assert(e == e0);
            assert((e + 1) * big_t > t * p) by (nonlinear_arith)
                requires t * p <= e * big_t, big_t > 0;
        }
    }
}

proof fn lemma_product_fits(a: int, b: int)
    requires
        0 <= a <= u64::MAX,
        0 <= b <= u64::MAX,
    ensures
        a * b <= u128::MAX,
{
    assert(a * b <= u64::MAX * u64::MAX) by (nonlinear_arith)
        requires 0 <= a <= u64::MAX, 0 <= b <= u64::MAX;
}

} // verus!
