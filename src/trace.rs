use vstd::prelude::*;

use crate::config::RunConfig;
use crate::run::{
    close_actions, end_actions, loop_actions, pass_actions, run_actions, start_actions, Action,
};
use crate::sampler::{emits_at, emitted_before};
use crate::stage::CalculationStage;

verus! {

/// The time stamp of the point that `a` emits for walker `w`, if it emits one.
pub open spec fn point_of(a: Action, w: int) -> Seq<int> {
    match a {
        Action::Emit { walker, time_us } => if walker == w {
            seq![time_us as int]
        } else {
            Seq::empty()
        },
        Action::Advance { walker, time_us, emit } => if walker == w && emit {
            seq![time_us as int]
        } else {
            Seq::empty()
        },
        _ => Seq::empty(),
    }
}

/// Time stamps of the points that the actions `s` emit for walker `w`, in order.
pub open spec fn point_times(s: Seq<Action>, w: int) -> Seq<int>
    decreases s.len(),
{
    if s.len() == 0 {
        Seq::empty()
    } else {
        point_times(s.drop_last(), w) + point_of(s.last(), w)
    }
}

/// The stage that `a` announces, if it announces one.
pub open spec fn stage_of(a: Action) -> Seq<CalculationStage> {
    match a {
        Action::Stage(s) => seq![s],
        _ => Seq::empty(),
    }
}

/// The stages that the actions `s` announce, in order.
pub open spec fn stages_in(s: Seq<Action>) -> Seq<CalculationStage>
    decreases s.len(),
{
    if s.len() == 0 {
        Seq::empty()
    } else {
        stages_in(s.drop_last()) + stage_of(s.last())
    }
}

/// Times of the points each walker emits on the first `k` passes of the
/// stepping loop.
pub open spec fn loop_point_times(c: RunConfig, k: nat) -> Seq<int>
    decreases k,
{
    if k == 0 {
        Seq::empty()
    } else {
        loop_point_times(c, (k - 1) as nat) + if emits_at(c, (k - 1) as nat) {
            seq![c.time_at(k - 1)]
        } else {
            Seq::empty()
        }
    }
}

proof fn lemma_point_times_add(a: Seq<Action>, b: Seq<Action>, w: int)
    ensures
        point_times(a + b, w) == point_times(a, w) + point_times(b, w),
    decreases b.len(),
{
    if b.len() == 0 {
        assert(a + b == a);
        assert(point_times(a, w) + point_times(b, w) == point_times(a, w));
    } else {
        lemma_point_times_add(a, b.drop_last(), w);
        assert((a + b).drop_last() == a + b.drop_last());
        assert((a + b).last() == b.last());
    }
}

proof fn lemma_stages_add(a: Seq<Action>, b: Seq<Action>)
    ensures
        stages_in(a + b) == stages_in(a) + stages_in(b),
    decreases b.len(),
{
    if b.len() == 0 {
        assert(a + b == a);
        assert(stages_in(a) + stages_in(b) == stages_in(a));
    } else {
        lemma_stages_add(a, b.drop_last());
        assert((a + b).drop_last() == a + b.drop_last());
        assert((a + b).last() == b.last());
    }
}

proof fn lemma_point_times_none(s: Seq<Action>, w: int)
    requires
        forall|i: int| 0 <= i < s.len() ==> point_of(#[trigger] s[i], w) == Seq::<int>::empty(),
    ensures
        point_times(s, w) == Seq::<int>::empty(),
    decreases s.len(),
{
    if s.len() > 0 {
        lemma_point_times_none(s.drop_last(), w);
        assert(point_of(s[s.len() - 1], w) == Seq::<int>::empty());
    }
}

proof fn lemma_stages_none(s: Seq<Action>)
    requires
        forall|i: int| 0 <= i < s.len() ==> !(#[trigger] s[i] is Stage),
    ensures
        stages_in(s) == Seq::<CalculationStage>::empty(),
    decreases s.len(),
{
    if s.len() > 0 {
        lemma_stages_none(s.drop_last());
        assert(!(s[s.len() - 1] is Stage));
    }
}

/// In `s`, only the action at `i` emits a point for `w`.
proof fn lemma_point_times_single(s: Seq<Action>, w: int, i: int)
    requires
        0 <= i < s.len(),
        forall|j: int| 0 <= j < s.len() && j != i ==> point_of(#[trigger] s[j], w) == Seq::<int>::empty(),
    ensures
        point_times(s, w) == point_of(s[i], w),
{
    let pre = s.take(i);
    let post = s.skip(i + 1);
    assert(s == pre + seq![s[i]] + post);
    assert forall|j: int| 0 <= j < pre.len() implies point_of(#[trigger] pre[j], w) == Seq::<int>::empty() by {
        assert(pre[j] == s[j]);
    }
    assert forall|j: int| 0 <= j < post.len() implies point_of(#[trigger] post[j], w) == Seq::<int>::empty() by {
        assert(post[j] == s[i + 1 + j]);
    }
    lemma_point_times_none(pre, w);
    lemma_point_times_none(post, w);
    lemma_point_times_add(pre + seq![s[i]], post, w);
    lemma_point_times_add(pre, seq![s[i]], w);
    let one = seq![s[i]];
    assert(one.drop_last() == Seq::<Action>::empty());
    assert(point_times(one.drop_last(), w) == Seq::<int>::empty());
    assert(Seq::<int>::empty() + point_of(s[i], w) == point_of(s[i], w));
    assert(point_times(one, w) == point_of(s[i], w));
}

proof fn lemma_pass_points(c: RunConfig, k: nat, w: int)
    requires
        c.wf(),
        k < c.pass_count(),
        0 <= w < c.walkers(),
    ensures
        point_times(pass_actions(c, k), w) == if emits_at(c, k) {
            seq![c.time_at(k as int)]
        } else {
            Seq::<int>::empty()
        },
        stages_in(pass_actions(c, k)) == Seq::<CalculationStage>::empty(),
{
    crate::config::lemma_pass_times(c);
    let s = pass_actions(c, k);
    lemma_point_times_single(s, w, w);
    lemma_stages_none(s);
}

proof fn lemma_loop_points(c: RunConfig, k: nat, w: int)
    requires
        c.wf(),
        k <= c.pass_count(),
        0 <= w < c.walkers(),
    ensures
        point_times(loop_actions(c, k), w) == loop_point_times(c, k),
        stages_in(loop_actions(c, k)) == Seq::<CalculationStage>::empty(),
    decreases k,
{
    if k > 0 {
        let j = (k - 1) as nat;
        lemma_loop_points(c, j, w);
        lemma_pass_points(c, j, w);
        lemma_point_times_add(loop_actions(c, j), pass_actions(c, j), w);
        lemma_stages_add(loop_actions(c, j), pass_actions(c, j));
    }
}

proof fn lemma_run_points(c: RunConfig, w: int)
    requires
        c.wf(),
        0 <= w < c.walkers(),
    ensures
        point_times(run_actions(c), w) == seq![0int] + loop_point_times(c, c.pass_count() as nat) + seq![
            c.final_time(),
        ],
        stages_in(run_actions(c)) == seq![CalculationStage::Points] + stages_in(end_actions(c)),
{
    crate::config::lemma_pass_times(c);
    let s0 = seq![Action::Stage(CalculationStage::Points)];
    let s1 = start_actions(c);
    let s2 = loop_actions(c, c.pass_count() as nat);
    let s3 = close_actions(c);
    let s4 = end_actions(c);
    lemma_point_times_single(s0 + s1, w, 1 + w);
    lemma_loop_points(c, c.pass_count() as nat, w);
    lemma_point_times_single(s3, w, w);
    lemma_point_times_none(s4, w);
    lemma_point_times_add(s0 + s1 + s2 + s3, s4, w);
    lemma_point_times_add(s0 + s1 + s2, s3, w);
    lemma_point_times_add(s0 + s1, s2, w);
    lemma_stages_none(s1);
    lemma_stages_none(s3);
    lemma_stages_add(s0, s1);
    lemma_stages_add(s0 + s1, s2);
    lemma_stages_add(s0 + s1 + s2, s3);
    lemma_stages_add(s0 + s1 + s2 + s3, s4);
    assert(s0.drop_last() == Seq::<Action>::empty());
    assert(stages_in(s0.drop_last()) == Seq::<CalculationStage>::empty());
    assert(Seq::<CalculationStage>::empty() + seq![CalculationStage::Points] == seq![CalculationStage::Points]);
    assert(stages_in(s0) == seq![CalculationStage::Points]);
}

proof fn lemma_loop_point_times_shape(c: RunConfig, k: nat)
    requires
        c.wf(),
        k <= c.pass_count(),
    ensures
        loop_point_times(c, k).len() + 1 == emitted_before(c, k),
        forall|i: int, j: int|
            0 <= i < j < loop_point_times(c, k).len() ==> loop_point_times(c, k)[i] < loop_point_times(c, k)[j],
        forall|i: int|
            0 <= i < loop_point_times(c, k).len() ==> 0 < #[trigger] loop_point_times(c, k)[i] < c.time_at(k as int),
    decreases k,
{
    if k > 0 {
        let j = (k - 1) as nat;
        lemma_loop_point_times_shape(c, j);
        let d = c.timestep_us as int;
        assert(c.time_at(j as int) < c.time_at(k as int)) by (nonlinear_arith)
            requires c.time_at(j as int) == j * d, c.time_at(k as int) == k * d, j + 1 == k, d > 0;
        assert(c.time_at(j as int) >= 0) by (nonlinear_arith)
            requires c.time_at(j as int) == j * d, j >= 0, d > 0;
        if j == 0 {
            let big_t = c.simulation_time_us as int;
            assert(c.time_at(0) == 0) by (nonlinear_arith)
                requires c.time_at(0) == 0 * (c.timestep_us as int);
            assert(0 * (c.points_to_show as int) <= emitted_before(c, 0) * big_t) by (nonlinear_arith)
                requires big_t >= 0, emitted_before(c, 0) == 1;
            assert(!emits_at(c, 0));
        }
        let lp = loop_point_times(c, k);
        let prev = loop_point_times(c, j);
        assert forall|a: int| 0 <= a < lp.len() implies 0 < #[trigger] lp[a] < c.time_at(k as int) by {
            if a < prev.len() {
                assert(lp[a] == prev[a]);
            }
        }
        assert forall|a: int, b: int| 0 <= a < b < lp.len() implies lp[a] < lp[b] by {
            assert(lp[a] == prev[a]);
            if b < prev.len() {
                assert(lp[b] == prev[b]);
            }
        }
    }
}

/// Monotonic time: the points of each walker carry strictly increasing times,
/// starting at zero; the last one lies beyond the simulated duration by at
/// most one timestep, and by less than one unless the duration is a multiple
/// of the timestep.
pub proof fn lemma_point_times_increase(c: RunConfig, w: int)
    requires
        c.wf(),
        0 <= w < c.walkers(),
    ensures
        ({
            let ts = point_times(run_actions(c), w);
            &&& ts.len() >= 2
            &&& ts[0] == 0
            &&& forall|i: int, j: int| 0 <= i < j < ts.len() ==> ts[i] < ts[j]
            &&& ts.last() > c.simulation_time_us
            &&& ts.last() <= c.simulation_time_us + c.timestep_us
            &&& c.simulation_time_us % c.timestep_us != 0 ==> ts.last() < c.simulation_time_us + c.timestep_us
        }),
{
    let k = c.pass_count() as nat;
    crate::config::lemma_pass_times(c);
    lemma_run_points(c, w);
    lemma_loop_point_times_shape(c, k);
    let lp = loop_point_times(c, k);
    let ts = point_times(run_actions(c), w);
    assert(ts == seq![0int] + lp + seq![c.final_time()]);
    assert forall|i: int, j: int| 0 <= i < j < ts.len() implies ts[i] < ts[j] by {
        if j == ts.len() - 1 {
            if i > 0 {
                assert(ts[i] == lp[i - 1]);
            }
        } else if i == 0 {
            assert(ts[j] == lp[j - 1]);
        } else {
            assert(ts[i] == lp[i - 1]);
            assert(ts[j] == lp[j - 1]);
        }
    }
    let t = c.simulation_time_us as int;
    let d = c.timestep_us as int;
    if t % d != 0 {
        assert(c.final_time() == (t / d + 1) * d);
        assert((t / d + 1) * d < t + d) by (nonlinear_arith)
            requires d > 0, t >= 0, t % d != 0;
    }
}

/// Emission count: leaving out the final point, each walker emits at most
/// `points_to_show` points, and at least `points_to_show - 1` of them when
/// one timestep is no longer than one share of the duration
/// (`timestep * points_to_show <= simulation_time`).
pub proof fn lemma_emission_count(c: RunConfig, w: int)
    requires
        c.wf(),
        0 <= w < c.walkers(),
    ensures
        point_times(run_actions(c), w).len() - 1 <= c.points_to_show,
        c.timestep_us * c.points_to_show <= c.simulation_time_us ==> point_times(run_actions(c), w).len() - 1
            >= c.points_to_show - 1,
{
    let k = c.pass_count() as nat;
    crate::config::lemma_pass_times(c);
    lemma_run_points(c, w);
    lemma_loop_point_times_shape(c, k);
    crate::sampler::lemma_emitted_within_budget(c, k);
    let e = emitted_before(c, k) as int;
    assert(point_times(run_actions(c), w).len() - 1 == e);
    if c.timestep_us * c.points_to_show <= c.simulation_time_us {
        crate::sampler::lemma_emitted_keeps_up(c, k);
        let big_t = c.simulation_time_us as int;
        let p = c.points_to_show as int;
        let d = c.timestep_us as int;
        let last = c.time_at(k - 1);
        assert(big_t > 0) by (nonlinear_arith)
            requires d * p <= big_t, d > 0, p > 0;
        assert(e >= p - 1) by (nonlinear_arith)
            requires (e + 1) * big_t > last * p, last > big_t - d, d * p <= big_t, p > 0, d > 0, big_t > 0;
    }
}

/// Stage order: a run announces `Points`, then `Plots` if it makes an image,
/// then `End`, each once; each announced stage is the successor of the one
/// before it, the first being the successor of `Start`, which the consumer
/// shows when it launches the run. `Points` is the run's first action, before
/// any point, and `End` its last, after which nothing follows.
pub proof fn lemma_stage_order(c: RunConfig)
    requires
        c.wf(),
    ensures
        seq![CalculationStage::Start] + stages_in(run_actions(c)) == if c.generate_image {
            seq![CalculationStage::Start, CalculationStage::Points, CalculationStage::Plots, CalculationStage::End]
        } else {
            seq![CalculationStage::Start, CalculationStage::Points, CalculationStage::End]
        },
        stages_in(run_actions(c))[0] == CalculationStage::Start.successor(c.generate_image),
        forall|i: int|
            0 < i < stages_in(run_actions(c)).len() ==> #[trigger] stages_in(run_actions(c))[i]
                == stages_in(run_actions(c))[i - 1].successor(c.generate_image),
        stages_in(run_actions(c)).last() == CalculationStage::End,
        run_actions(c)[0] == Action::Stage(CalculationStage::Points),
        run_actions(c).last() == Action::Stage(CalculationStage::End),
{
    lemma_run_points(c, 0);
    crate::run::lemma_run_layout(c);
    crate::run::lemma_run_at_end(c, end_actions(c).len() - 1);
    let e = end_actions(c);
    if c.generate_image {
        let a = seq![Action::Stage(CalculationStage::Plots), Action::Render];
        let b = seq![Action::Stage(CalculationStage::Plots)];
        assert(e.drop_last() == a);
        assert(a.drop_last() == b);
        assert(b.drop_last() == Seq::<Action>::empty());
        assert(stages_in(Seq::<Action>::empty()) == Seq::<CalculationStage>::empty());
        assert(stages_in(b) == seq![CalculationStage::Plots]);
        assert(stages_in(a) == seq![CalculationStage::Plots]);
        assert(stages_in(e) == seq![CalculationStage::Plots, CalculationStage::End]);
    } else {
        assert(e.drop_last() == Seq::<Action>::empty());
        assert(stages_in(Seq::<Action>::empty()) == Seq::<CalculationStage>::empty());
        assert(stages_in(e) == seq![CalculationStage::End]);
    }
    let st = stages_in(run_actions(c));
    if c.generate_image {
        assert(st == seq![CalculationStage::Points, CalculationStage::Plots, CalculationStage::End]);
    } else {
        assert(st == seq![CalculationStage::Points, CalculationStage::End]);
    }
    assert(seq![CalculationStage::Start] + st =~= if c.generate_image {
        seq![CalculationStage::Start, CalculationStage::Points, CalculationStage::Plots, CalculationStage::End]
    } else {
        seq![CalculationStage::Start, CalculationStage::Points, CalculationStage::End]
    });
}

/// The order key of the point that `a` emits, if it emits one, in a run of `n`
/// walkers: earlier times first, and at one time, lower walker indices first.
pub open spec fn point_key(a: Action, n: int) -> Seq<int> {
    match a {
        Action::Emit { walker, time_us } => seq![time_us * n + walker],
        Action::Advance { walker, time_us, emit } => if emit {
            seq![time_us * n + walker]
        } else {
            Seq::empty()
        },
        _ => Seq::empty(),
    }
}

/// Order keys of all points that the actions `s` emit, in order.
pub open spec fn point_keys(s: Seq<Action>, n: int) -> Seq<int>
    decreases s.len(),
{
    if s.len() == 0 {
        Seq::empty()
    } else {
        point_keys(s.drop_last(), n) + point_key(s.last(), n)
    }
}

/// Whether `s` is strictly increasing.
pub open spec fn increasing(s: Seq<int>) -> bool {
    forall|i: int, j: int| 0 <= i < j < s.len() ==> s[i] < s[j]
}

proof fn lemma_keys_add(a: Seq<Action>, b: Seq<Action>, n: int)
    ensures
        point_keys(a + b, n) == point_keys(a, n) + point_keys(b, n),
    decreases b.len(),
{
    if b.len() == 0 {
        assert(a + b == a);
        assert(point_keys(a, n) + point_keys(b, n) == point_keys(a, n));
    } else {
        lemma_keys_add(a, b.drop_last(), n);
        assert((a + b).drop_last() == a + b.drop_last());
        assert((a + b).last() == b.last());
    }
}

/// Every action of `s` emits a point, the one at `i` with key `g[i]`.
proof fn lemma_keys_each(s: Seq<Action>, n: int, g: Seq<int>)
    requires
        s.len() == g.len(),
        forall|i: int| 0 <= i < s.len() ==> point_key(#[trigger] s[i], n) == seq![g[i]],
    ensures
        point_keys(s, n) == g,
    decreases s.len(),
{
    if s.len() > 0 {
        let m = s.len() - 1;
        assert forall|i: int| 0 <= i < m implies point_key(#[trigger] s.drop_last()[i], n) == seq![g.drop_last()[i]] by {
            assert(s.drop_last()[i] == s[i]);
        }
        lemma_keys_each(s.drop_last(), n, g.drop_last());
        assert(point_key(s[m], n) == seq![g[m]]);
        assert(g.drop_last() + seq![g[m]] == g);
    }
}

proof fn lemma_keys_none(s: Seq<Action>, n: int)
    requires
        forall|i: int| 0 <= i < s.len() ==> point_key(#[trigger] s[i], n) == Seq::<int>::empty(),
    ensures
        point_keys(s, n) == Seq::<int>::empty(),
    decreases s.len(),
{
    if s.len() > 0 {
        lemma_keys_none(s.drop_last(), n);
        assert(point_key(s[s.len() - 1], n) == Seq::<int>::empty());
    }
}

proof fn lemma_increasing_add(a: Seq<int>, b: Seq<int>)
    requires
        increasing(a),
        increasing(b),
        forall|i: int, j: int| 0 <= i < a.len() && 0 <= j < b.len() ==> a[i] < b[j],
    ensures
        increasing(a + b),
{
    let ab = a + b;
    assert forall|i: int, j: int| 0 <= i < j < ab.len() implies ab[i] < ab[j] by {
        if j < a.len() {
            assert(ab[i] == a[i] && ab[j] == a[j]);
        } else if i < a.len() {
            assert(ab[i] == a[i] && ab[j] == b[j - a.len()]);
        } else {
            assert(ab[i] == b[i - a.len()] && ab[j] == b[j - a.len()]);
        }
    }
}

/// The keys of the points of `n` walkers, in walker order, at time `t`.
pub open spec fn keys_at(t: int, n: int) -> Seq<int> {
    Seq::new(n as nat, |w: int| t * n + w)
}

proof fn lemma_keys_at(t: int, n: int)
    requires
        t >= 0,
        n > 0,
    ensures
        increasing(keys_at(t, n)),
        forall|i: int| 0 <= i < n ==> t * n <= #[trigger] keys_at(t, n)[i] < (t + 1) * n,
{
    assert((t + 1) * n == t * n + n) by (nonlinear_arith);
}

proof fn lemma_pass_keys(c: RunConfig, k: nat)
    requires
        c.wf(),
        k < c.pass_count(),
    ensures
        point_keys(pass_actions(c, k), c.walkers()) == if emits_at(c, k) {
            keys_at(c.time_at(k as int), c.walkers())
        } else {
            Seq::<int>::empty()
        },
{
    crate::config::lemma_pass_times(c);
    let n = c.walkers();
    let s = pass_actions(c, k);
    let movers = s.take(n);
    let rest = s.skip(n);
    assert(s == movers + rest);
    lemma_keys_add(movers, rest, n);
    lemma_keys_none(rest, n);
    if emits_at(c, k) {
        let g = keys_at(c.time_at(k as int), n);
        assert forall|i: int| 0 <= i < movers.len() implies point_key(#[trigger] movers[i], n) == seq![g[i]] by {
            assert(movers[i] == s[i]);
        }
        lemma_keys_each(movers, n, g);
    } else {
        assert forall|i: int| 0 <= i < movers.len() implies point_key(#[trigger] movers[i], n)
            == Seq::<int>::empty() by {
            assert(movers[i] == s[i]);
        }
        lemma_keys_none(movers, n);
    }
    assert(point_keys(movers, n) + Seq::<int>::empty() == point_keys(movers, n));
}

proof fn lemma_loop_keys(c: RunConfig, k: nat)
    requires
        c.wf(),
        k <= c.pass_count(),
    ensures
        increasing(point_keys(loop_actions(c, k), c.walkers())),
        forall|i: int|
            0 <= i < point_keys(loop_actions(c, k), c.walkers()).len() ==> c.walkers() <= #[trigger] point_keys(
                loop_actions(c, k),
                c.walkers(),
            )[i] < c.time_at(k as int) * c.walkers(),
    decreases k,
{
    let n = c.walkers();
    if k == 0 {
        assert(point_keys(loop_actions(c, 0), n) == Seq::<int>::empty());
    } else {
        let j = (k - 1) as nat;
        lemma_loop_keys(c, j);
        lemma_pass_keys(c, j);
        lemma_keys_add(loop_actions(c, j), pass_actions(c, j), n);
        let a = point_keys(loop_actions(c, j), n);
        let b = point_keys(pass_actions(c, j), n);
        let d = c.timestep_us as int;
        let tj = c.time_at(j as int);
        let tk = c.time_at(k as int);
        assert(tk == tj + d) by (nonlinear_arith)
            requires tj == j * d, tk == k * d, k == j + 1;
        assert(tj >= 0) by (nonlinear_arith)
            requires tj == j * d, j >= 0, d > 0;
        assert(tj * n <= tk * n) by (nonlinear_arith)
            requires tj <= tk, n > 0;
        assert(tj * n + n <= tk * n) by (nonlinear_arith)
            requires tk == tj + d, d >= 1, n > 0;
        if emits_at(c, j) {
            if j == 0 {
                let big_t = c.simulation_time_us as int;
                assert(c.time_at(0) == 0) by (nonlinear_arith)
                requires c.time_at(0) == 0 * (c.timestep_us as int);
                assert(0 * (c.points_to_show as int) <= emitted_before(c, 0) * big_t) by (nonlinear_arith)
                    requires big_t >= 0, emitted_before(c, 0) == 1;
            }
            assert(tj >= d) by (nonlinear_arith)
                requires tj == j * d, j >= 1, d > 0;
            assert(n <= tj * n) by (nonlinear_arith)
                requires tj >= 1, n > 0;
            lemma_keys_at(tj, n);
            assert((tj + 1) * n == tj * n + n) by (nonlinear_arith);
        }
        lemma_increasing_add(a, b);
        let ab = a + b;
        assert forall|i: int| 0 <= i < ab.len() implies n <= #[trigger] ab[i] < tk * n by {
            if i < a.len() {
                assert(ab[i] == a[i]);
            } else {
                assert(ab[i] == b[i - a.len()]);
            }
        }
    }
}

/// Ordering across walkers: all points of a run come in order of time, and
/// points of one time in order of walker index, so that every walker's point
/// for one timestep precedes any point for a later timestep.
pub proof fn lemma_points_in_order(c: RunConfig)
    requires
        c.wf(),
    ensures
        increasing(point_keys(run_actions(c), c.walkers())),
{
    crate::config::lemma_pass_times(c);
    let n = c.walkers();
    let big_k = c.pass_count() as nat;
    let s0 = seq![Action::Stage(CalculationStage::Points)];
    let s1 = start_actions(c);
    let s2 = loop_actions(c, big_k);
    let s3 = close_actions(c);
    let s4 = end_actions(c);
    let fin = c.final_time();
    lemma_keys_none(s0, n);
    lemma_keys_at(0, n);
    assert forall|i: int| 0 <= i < s1.len() implies point_key(#[trigger] s1[i], n) == seq![keys_at(0, n)[i]] by {
        assert(0 * n == 0);
    }
    lemma_keys_each(s1, n, keys_at(0, n));
    lemma_loop_keys(c, big_k);
    assert forall|i: int| 0 <= i < s3.len() implies point_key(#[trigger] s3[i], n) == seq![keys_at(fin, n)[i]] by {}
    lemma_keys_each(s3, n, keys_at(fin, n));
    lemma_keys_at(fin, n);
    lemma_keys_none(s4, n);
    assert(0 * n + n == n) by (nonlinear_arith);
    lemma_keys_add(s0, s1, n);
    lemma_keys_add(s0 + s1, s2, n);
    lemma_keys_add(s0 + s1 + s2, s3, n);
    lemma_keys_add(s0 + s1 + s2 + s3, s4, n);
    let k1 = keys_at(0, n);
    let k2 = point_keys(s2, n);
    let k3 = keys_at(fin, n);
    assert(Seq::<int>::empty() + k1 == k1);
    lemma_increasing_add(k1, k2);
    assert forall|i: int, j: int| 0 <= i < (k1 + k2).len() && 0 <= j < k3.len() implies (k1 + k2)[i] < k3[j] by {
        if i < k1.len() {
            assert((k1 + k2)[i] == k1[i]);
            assert(n <= fin * n) by (nonlinear_arith)
                requires fin >= 1, n > 0;
        } else {
            assert((k1 + k2)[i] == k2[i - k1.len()]);
        }
    }
    lemma_increasing_add(k1 + k2, k3);
    assert(k1 + k2 + k3 + Seq::<int>::empty() == k1 + k2 + k3);
}

} // verus!
