use vstd::prelude::*;

verus! {

/// The settings of one simulation run that decide when walkers move, when the
/// star frame turns and which states become trajectory points.
///
/// Times are whole microseconds. The geometric settings (planet radius, axial
/// tilt, periods, star distance, start position, velocities) do not take part
/// in these decisions and stay with the caller.
#[derive(Clone, Copy, Debug, PartialEq, Eq, Structural)]
pub struct RunConfig {
    /// Length of one integration step.
    pub timestep_us: u64,
    /// Simulated duration; the stepping loop runs while the time is at most this.
    pub simulation_time_us: u64,
    /// Approximate number of points to emit per walker.
    pub points_to_show: u64,
    /// Number of walkers in the velocity sweep.
    pub velocities_count: usize,
    /// Whether the finished trajectories are handed to the image renderer.
    pub generate_image: bool,
}

impl RunConfig {
    /// The inputs a run needs: a positive step, a positive point budget, at
    /// least one walker, and times that stay within `u64`.
    pub open spec fn wf(self) -> bool {
        &&& self.timestep_us > 0
        &&& self.points_to_show > 0
        &&& self.velocities_count > 0
        &&& self.simulation_time_us + self.timestep_us <= u64::MAX
    }

    /// Number of walkers, as an integer.
    pub open spec fn walkers(self) -> int {
        self.velocities_count as int
    }

    /// Number of passes through the stepping loop: one for each multiple of the
    /// timestep from zero up to the simulated duration.
    pub open spec fn pass_count(self) -> int {
        self.simulation_time_us as int / self.timestep_us as int + 1
    }

    /// Simulated time at the start of pass `k`.
    pub open spec fn time_at(self, k: int) -> int {
        k * self.timestep_us
    }

    /// Time reached when the stepping loop exits: the first multiple of the
    /// timestep beyond the simulated duration.
    pub open spec fn final_time(self) -> int {
        self.time_at(self.pass_count())
    }

    /// Whether the configuration is one a run accepts.
    pub fn is_valid(&self) -> (r: bool)
        ensures
            r == self.wf(),
    {
        self.timestep_us > 0 && self.points_to_show > 0 && self.velocities_count > 0
            && self.simulation_time_us <= u64::MAX - self.timestep_us
    }
}

/// The stepping loop visits exactly the multiples of the timestep that do not
/// exceed the simulated duration, and stops at the first one beyond it.
pub proof fn lemma_pass_times(c: RunConfig)
    requires
        c.wf(),
    ensures
        c.pass_count() >= 1,
        forall|k: int| 0 <= k < c.pass_count() ==> #[trigger] c.time_at(k) <= c.simulation_time_us,
        c.final_time() > c.simulation_time_us,
        c.final_time() <= c.simulation_time_us + c.timestep_us,
        c.time_at(c.pass_count() - 1) > c.simulation_time_us - c.timestep_us,
{
    let t = c.simulation_time_us as int;
    let d = c.timestep_us as int;
    let q = t / d;
    assert(q * d <= t && t < q * d + d) by (nonlinear_arith)
        requires d > 0, q == t / d;
    assert forall|k: int| 0 <= k < c.pass_count() implies #[trigger] c.time_at(k) <= t by {
        assert(k * d <= q * d) by (nonlinear_arith)
            requires 0 <= k <= q, d > 0;
    }
    assert(c.final_time() == q * d + d) by (nonlinear_arith)
        requires c.final_time() == (q + 1) * d;
    assert(c.time_at(c.pass_count() - 1) == q * d);
}

} // verus!
