use vstd::prelude::*;

use crate::config::RunConfig;
use crate::sampler::{emits_at, emitted_before, should_emit};
use crate::stage::CalculationStage;

verus! {

/// One thing a run asks its driver to do. The driver owns the geometry: walker
/// positions, the star frame, and the conversion of positions to points.
#[derive(Clone, Copy, Debug, PartialEq, Eq, Structural)]
pub enum Action {
    /// Announce that the run has entered `stage`.
    Stage(CalculationStage),
    /// Emit the walker's current position as a trajectory point at `time_us`.
    Emit { walker: usize, time_us: u64 },
    /// Move the walker one timestep along the terminator if the star is above
    /// its horizon (otherwise it stays put); then, if `emit` holds, emit its
    /// position as a trajectory point at `time_us`.
    Advance { walker: usize, time_us: u64, emit: bool },
    /// Turn the star frame by one timestep: the planet's spin, then the orbit.
    TurnStar,
    /// Hand the complete trajectories of all walkers to the image renderer.
    Render,
}

/// Pass `k` of the stepping loop: every walker in index order, then the star.
pub open spec fn pass_actions(c: RunConfig, k: nat) -> Seq<Action> {
    Seq::new(
        (c.walkers() + 1) as nat,
        |j: int|
            if j < c.walkers() {
                Action::Advance { walker: j as usize, time_us: c.time_at(k as int) as u64, emit: emits_at(c, k) }
            } else {
                Action::TurnStar
            },
    )
}

/// The first `k` passes of the stepping loop.
pub open spec fn loop_actions(c: RunConfig, k: nat) -> Seq<Action>
    decreases k,
{
    if k == 0 {
        Seq::empty()
    } else {
        loop_actions(c, (k - 1) as nat) + pass_actions(c, (k - 1) as nat)
    }
}

/// Every walker emits its starting position at time zero.
pub open spec fn start_actions(c: RunConfig) -> Seq<Action> {
    Seq::new(c.walkers() as nat, |w: int| Action::Emit { walker: w as usize, time_us: 0 })
}

/// Every walker emits its last position at the time the stepping loop stopped.
pub open spec fn close_actions(c: RunConfig) -> Seq<Action> {
    Seq::new(c.walkers() as nat, |w: int| Action::Emit { walker: w as usize, time_us: c.final_time() as u64 })
}

/// The optional image stage, then the end of the run.
pub open spec fn end_actions(c: RunConfig) -> Seq<Action> {
    if c.generate_image {
        seq![
            Action::Stage(CalculationStage::Plots),
            Action::Render,
            Action::Stage(CalculationStage::End),
        ]
    } else {
        seq![Action::Stage(CalculationStage::End)]
    }
}

/// Everything a run with configuration `c` does, in order.
pub open spec fn run_actions(c: RunConfig) -> Seq<Action> {
    seq![Action::Stage(CalculationStage::Points)] + start_actions(c) + loop_actions(c, c.pass_count() as nat)
        + close_actions(c) + end_actions(c)
}

proof fn lemma_loop_len(c: RunConfig, k: nat)
    requires
        c.wf(),
    ensures
        loop_actions(c, k).len() == k * (c.walkers() + 1),
    decreases k,
{
    if k > 0 {
        lemma_loop_len(c, (k - 1) as nat);
        assert(k * (c.walkers() + 1) == (k - 1) * (c.walkers() + 1) + (c.walkers() + 1)) by (nonlinear_arith);
    } else {
        assert(k * (c.walkers() + 1) == 0) by (nonlinear_arith)
            requires k == 0;
    }
}

proof fn lemma_loop_index(c: RunConfig, k: nat, i: nat, j: int)
    requires
        c.wf(),
        i < k,
        0 <= j <= c.walkers(),
    ensures
        0 <= i * (c.walkers() + 1) + j < loop_actions(c, k).len(),
        loop_actions(c, k)[i * (c.walkers() + 1) + j] == pass_actions(c, i)[j],
    decreases k,
{
    let m = c.walkers() + 1;
    lemma_loop_len(c, k);
    lemma_loop_len(c, (k - 1) as nat);
    assert(0 <= i * m + j < k * m) by (nonlinear_arith)
        requires i < k, 0 <= j < m, m > 0;
    if i < k - 1 {
        lemma_loop_index(c, (k - 1) as nat, i, j);
    } else {
        assert(i * m == (k - 1) * m);
    }
}

/// Where each part of a run lies in `run_actions`.
pub(crate) proof fn lemma_run_layout(c: RunConfig)
    requires
        c.wf(),
    ensures
        run_actions(c).len() == 1 + 2 * c.walkers() + c.pass_count() * (c.walkers() + 1) + end_actions(c).len(),
        run_actions(c)[0] == Action::Stage(CalculationStage::Points),
{
    lemma_loop_len(c, c.pass_count() as nat);
}

proof fn lemma_run_at_start(c: RunConfig, w: int)
    requires
        c.wf(),
        0 <= w < c.walkers(),
    ensures
        run_actions(c)[1 + w] == (Action::Emit { walker: w as usize, time_us: 0 }),
{
    lemma_loop_len(c, c.pass_count() as nat);
}

proof fn lemma_run_at_pass(c: RunConfig, k: nat, j: int)
    requires
        c.wf(),
        k < c.pass_count(),
        0 <= j <= c.walkers(),
    ensures
        run_actions(c)[1 + c.walkers() + k * (c.walkers() + 1) + j] == pass_actions(c, k)[j],
{
    lemma_loop_len(c, c.pass_count() as nat);
    lemma_loop_index(c, c.pass_count() as nat, k, j);
}

proof fn lemma_run_at_close(c: RunConfig, w: int)
    requires
        c.wf(),
        0 <= w < c.walkers(),
    ensures
        run_actions(c)[1 + c.walkers() + c.pass_count() * (c.walkers() + 1) + w]
            == (Action::Emit { walker: w as usize, time_us: c.final_time() as u64 }),
{
    lemma_loop_len(c, c.pass_count() as nat);
}

pub(crate) proof fn lemma_run_at_end(c: RunConfig, i: int)
    requires
        c.wf(),
        0 <= i < end_actions(c).len(),
    ensures
        run_actions(c)[1 + 2 * c.walkers() + c.pass_count() * (c.walkers() + 1) + i] == end_actions(c)[i],
{
    lemma_loop_len(c, c.pass_count() as nat);
}

/// Where a run stands within `run_actions`.
#[derive(Clone, Copy, Debug, PartialEq, Eq, Structural)]
enum Phase {
    Opening,
    Starting,
    Stepping,
    Closing,
    Plotting,
    Rendering,
    Ending,
    Finished,
}

/// One simulation run, driven one action at a time.
///
/// The run announces the `Points` stage, emits every walker's starting point,
/// then steps through time: on each pass every walker advances in index order
/// and the star frame turns once. When the time has passed the simulated
/// duration every walker emits its last point; an image run then announces
/// `Plots` and asks for the image; every run ends with `End`.
pub struct Run {
    config: RunConfig,
    phase: Phase,
    /// Current pass of the stepping loop.
    pass: u64,
    /// Walker acted on next; in the stepping loop, `velocities_count` stands
    /// for the star frame.
    walker: usize,
    /// Simulated time of the current pass, or the final time once closing.
    time_us: u64,
    /// Points each walker has emitted before the current pass.
    emitted: u64,
}

impl Run {
    /// The configuration this run was started with.
    pub closed spec fn config(self) -> RunConfig {
        self.config
    }

    /// Number of actions of `run_actions(self.config())` already handed out.
    pub closed spec fn position(self) -> int {
        let c = self.config;
        let n = c.walkers();
        let looped = 1 + n + c.pass_count() * (n + 1);
        match self.phase {
            Phase::Opening => 0,
            Phase::Starting => 1 + self.walker,
            Phase::Stepping => 1 + n + self.pass * (n + 1) + self.walker,
            Phase::Closing => looped + self.walker,
            Phase::Plotting => looped + n,
            Phase::Rendering => looped + n + 1,
            Phase::Ending => looped + n + end_actions(c).len() - 1,
            Phase::Finished => looped + n + end_actions(c).len(),
        }
    }

    /// The run's internal consistency.
    pub closed spec fn wf(self) -> bool {
        let c = self.config;
        &&& c.wf()
        &&& match self.phase {
            Phase::Starting => self.walker < c.walkers(),
            Phase::Stepping => {
                &&& self.pass < c.pass_count()
                &&& self.walker <= c.walkers()
                &&& self.time_us == c.time_at(self.pass as int)
                &&& self.emitted == emitted_before(c, self.pass as nat)
            },
            Phase::Closing => self.walker < c.walkers() && self.time_us == c.final_time(),
            Phase::Plotting => c.generate_image,
            Phase::Rendering => c.generate_image,
            _ => true,
        }
    }

    /// Number of actions in the whole run.
    pub open spec fn length(self) -> int {
        run_actions(self.config()).len() as int
    }

    /// Starts a run; nothing has happened yet.
    pub fn new(config: RunConfig) -> (r: Run)
        requires
            config.wf(),
        ensures
            r.wf(),
            r.config() == config,
            r.position() == 0,
    {
        Run { config, phase: Phase::Opening, pass: 0, walker: 0, time_us: 0, emitted: 1 }
    }

    /// Whether every action of the run has been handed out.
    pub fn is_finished(&self) -> (r: bool)
        requires
            self.wf(),
        ensures
            r == (self.position() == self.length()),
    {
        proof {
            self.lemma_position_in_range();
        }
        match self.phase {
            Phase::Finished => true,
            _ => false,
        }
    }

    proof fn lemma_position_in_range(self)
        requires
            self.wf(),
        ensures
            0 <= self.position() <= self.length(),
            self.phase is Finished <==> self.position() == self.length(),
    {
        let c = self.config;
        let n = c.walkers();
        lemma_run_layout(c);
        crate::config::lemma_pass_times(c);
        if self.phase is Stepping {
            assert(self.pass * (n + 1) + self.walker < c.pass_count() * (n + 1)) by (nonlinear_arith)
                requires self.pass < c.pass_count(), 0 <= self.walker <= n, 0 <= self.pass;
        }
        assert(c.pass_count() * (n + 1) >= 0) by (nonlinear_arith)
            requires c.pass_count() >= 1, n >= 1;
    }

    /// Hands out the next action of the run, or `None` once the run is over.
    pub fn next(&mut self) -> (r: Option<Action>)
        requires
            old(self).wf(),
        ensures
            final(self).wf(),
            final(self).config() == old(self).config(),
            old(self).position() < old(self).length() ==> {
                &&& r == Some(run_actions(old(self).config())[old(self).position()])
                &&& final(self).position() == old(self).position() + 1
            },
            old(self).position() == old(self).length() ==> r is None && final(self).position() == old(self).position(),
    {
        proof {
            self.lemma_position_in_range();
        }
        let c = self.config;
        let ghost n = c.walkers();
        let ghost pos = self.position();
        match self.phase {
            Phase::Opening => {
                proof {
                    lemma_run_layout(c);
                }
                self.phase = Phase::Starting;
                self.walker = 0;
                Some(Action::Stage(CalculationStage::Points))
            },
            Phase::Starting => {
                let w = self.walker;
                proof {
                    lemma_run_at_start(c, w as int);
                }
                if w + 1 < c.velocities_count {
                    self.walker = w + 1;
                } else {
                    self.phase = Phase::Stepping;
                    self.pass = 0;
                    self.walker = 0;
                    self.time_us = 0;
                    self.emitted = 1;
                    assert(0 * (n + 1) == 0) by (nonlinear_arith);
                }
                Some(Action::Emit { walker: w, time_us: 0 })
            },
            Phase::Stepping => {
                let w = self.walker;
                let k = self.pass;
                proof {
                    lemma_run_at_pass(c, k as nat, w as int);
                    crate::config::lemma_pass_times(c);
                    crate::sampler::lemma_emitted_within_budget(c, k as nat);
                }
                let emit = should_emit(self.time_us, c.simulation_time_us, self.emitted, c.points_to_show);
                if w < c.velocities_count {
                    self.walker = w + 1;
                    Some(Action::Advance { walker: w, time_us: self.time_us, emit })
                } else {
                    proof {
                        crate::sampler::lemma_emitted_within_budget(c, (k + 1) as nat);
                    }
                    if emit {
                        self.emitted = self.emitted + 1;
                    }
                    self.pass = k + 1;
                    self.time_us = self.time_us + c.timestep_us;
                    self.walker = 0;
                    assert(self.time_us == c.time_at(k + 1)) by (nonlinear_arith)
                        requires self.time_us == c.time_at(k as int) + c.timestep_us;
                    assert((k + 1) * (n + 1) == k * (n + 1) + n + 1) by (nonlinear_arith);
                    if self.time_us > c.simulation_time_us {
                        self.phase = Phase::Closing;
                        assert(k + 1 == c.pass_count());
                    }
                    Some(Action::TurnStar)
                }
            },
            Phase::Closing => {
                let w = self.walker;
                proof {
                    lemma_run_at_close(c, w as int);
                }
                if w + 1 < c.velocities_count {
                    self.walker = w + 1;
                } else if c.generate_image {
                    self.phase = Phase::Plotting;
                } else {
                    self.phase = Phase::Ending;
                }
                Some(Action::Emit { walker: w, time_us: self.time_us })
            },
            Phase::Plotting => {
                proof {
                    lemma_run_at_end(c, 0);
                }
                self.phase = Phase::Rendering;
                Some(Action::Stage(CalculationStage::Plots))
            },
            Phase::Rendering => {
                proof {
                    lemma_run_at_end(c, 1);
                }
                self.phase = Phase::Ending;
                Some(Action::Render)
            },
            Phase::Ending => {
                proof {
                    lemma_run_at_end(c, end_actions(c).len() - 1);
                }
                self.phase = Phase::Finished;
                Some(Action::Stage(CalculationStage::End))
            },
            Phase::Finished => None,
        }
    }
}

} // verus!
