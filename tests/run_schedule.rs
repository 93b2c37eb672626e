use marco_planet::config::RunConfig;
use marco_planet::run::{Action, Run};
use marco_planet::stage::CalculationStage;

const SECOND: u64 = 1_000_000;

fn config(timestep_us: u64, simulation_time_us: u64, points_to_show: u64, velocities_count: usize, generate_image: bool) -> RunConfig {
    RunConfig { timestep_us, simulation_time_us, points_to_show, velocities_count, generate_image }
}

fn all_actions(c: RunConfig) -> Vec<Action> {
    assert!(c.is_valid());
    let mut run = Run::new(c);
    let mut out = Vec::new();
    while let Some(a) = run.next() {
        out.push(a);
    }
    assert!(run.is_finished());
    assert_eq!(run.next(), None);
    out
}

fn stages(actions: &[Action]) -> Vec<CalculationStage> {
    actions
        .iter()
        .filter_map(|a| match a {
            Action::Stage(s) => Some(*s),
            _ => None,
        })
        .collect()
}

fn point_times(actions: &[Action], w: usize) -> Vec<u64> {
    actions
        .iter()
        .filter_map(|a| match *a {
            Action::Emit { walker, time_us } if walker == w => Some(time_us),
            Action::Advance { walker, time_us, emit: true } if walker == w => Some(time_us),
            _ => None,
        })
        .collect()
}

#[test]
fn end_to_end_single_walker_day() {
    let c = config(SECOND, 86_400 * SECOND, 1000, 1, false);
    let actions = all_actions(c);
    assert_eq!(stages(&actions), vec![CalculationStage::Points, CalculationStage::End]);
    let times = point_times(&actions, 0);
    assert!(times.len() >= 1000 && times.len() <= 1001, "{} points", times.len());
    assert_eq!(times[0], 0);
    assert!(times.windows(2).all(|p| p[0] < p[1]));
    assert_eq!(*times.last().unwrap(), 86_401 * SECOND);
    assert_eq!(actions[1], Action::Emit { walker: 0, time_us: 0 });
    let advances = actions.iter().filter(|a| matches!(a, Action::Advance { .. })).count();
    let turns = actions.iter().filter(|a| matches!(a, Action::TurnStar)).count();
    assert_eq!(advances, 86_401);
    assert_eq!(turns, 86_401);
    assert!(!actions.contains(&Action::Render));
}

#[test]
fn stage_order_with_image() {
    for n in [1usize, 2, 5] {
        let actions = all_actions(config(SECOND, 10 * SECOND, 4, n, true));
        let mut seen = vec![CalculationStage::Start];
        seen.extend(stages(&actions));
        assert_eq!(
            seen,
            vec![CalculationStage::Start, CalculationStage::Points, CalculationStage::Plots, CalculationStage::End]
        );
        let len = actions.len();
        assert_eq!(actions[len - 3], Action::Stage(CalculationStage::Plots));
        assert_eq!(actions[len - 2], Action::Render);
        assert_eq!(actions[len - 1], Action::Stage(CalculationStage::End));
    }
}

#[test]
fn small_run_exact_actions() {
    // Two walkers, passes at 0, 3 and 6 s; the loop stops at 9 s.
    let actions = all_actions(config(3 * SECOND, 7 * SECOND, 2, 2, false));
    let adv = |walker: usize, t: u64, emit: bool| Action::Advance { walker, time_us: t * SECOND, emit };
    let expected = vec![
        Action::Stage(CalculationStage::Points),
        Action::Emit { walker: 0, time_us: 0 },
        Action::Emit { walker: 1, time_us: 0 },
        adv(0, 0, false),
        adv(1, 0, false),
        Action::TurnStar,
        adv(0, 3, false),
        adv(1, 3, false),
        Action::TurnStar,
        adv(0, 6, true),
        adv(1, 6, true),
        Action::TurnStar,
        Action::Emit { walker: 0, time_us: 9 * SECOND },
        Action::Emit { walker: 1, time_us: 9 * SECOND },
        Action::Stage(CalculationStage::End),
    ];
    assert_eq!(actions, expected);
}

#[test]
fn zero_duration_runs_one_pass() {
    let actions = all_actions(config(2 * SECOND, 0, 5, 1, false));
    assert_eq!(
        actions,
        vec![
            Action::Stage(CalculationStage::Points),
            Action::Emit { walker: 0, time_us: 0 },
            Action::Advance { walker: 0, time_us: 0, emit: false },
            Action::TurnStar,
            Action::Emit { walker: 0, time_us: 2 * SECOND },
            Action::Stage(CalculationStage::End),
        ]
    );
}

#[test]
fn times_increase_and_overshoot_by_less_than_a_step() {
    let actions = all_actions(config(3, 10, 3, 3, false));
    for w in 0..3 {
        let times = point_times(&actions, w);
        assert_eq!(times[0], 0);
        assert!(times.windows(2).all(|p| p[0] < p[1]));
        assert_eq!(*times.last().unwrap(), 12);
    }
}

#[test]
fn overshoot_is_one_step_when_duration_is_a_multiple() {
    let actions = all_actions(config(3, 9, 3, 1, false));
    let times = point_times(&actions, 0);
    assert_eq!(*times.last().unwrap(), 12);
}

#[test]
fn emission_count_within_one_of_budget() {
    for (dt, t, p) in [(1u64, 100u64, 10u64), (1, 1000, 7), (3, 1000, 333), (7, 700, 100), (1, 5, 5)] {
        let actions = all_actions(config(dt, t, p, 2, false));
        for w in 0..2 {
            let without_last = point_times(&actions, w).len() as u64 - 1;
            assert!(without_last <= p, "dt {dt} t {t} p {p}: {without_last}");
            assert!(without_last + 1 >= p, "dt {dt} t {t} p {p}: {without_last}");
        }
    }
}

#[test]
fn coarse_steps_emit_fewer_points() {
    // One pass at 0 and one at 10: far fewer points than the budget.
    let actions = all_actions(config(10, 10, 100, 1, false));
    assert_eq!(point_times(&actions, 0), vec![0, 10, 20]);
}

#[test]
fn walkers_share_emission_decisions_in_index_order() {
    let actions = all_actions(config(1, 20, 5, 4, false));
    let reference = point_times(&actions, 0);
    for w in 1..4 {
        assert_eq!(point_times(&actions, w), reference);
    }
    let mut last: Option<(u64, usize)> = None;
    for a in &actions {
        if let Action::Advance { walker, time_us, .. } = *a {
            if let Some((t, w)) = last {
                assert!(time_us > t || (time_us == t && walker == w + 1));
            }
            last = Some((time_us, walker));
        }
    }
}

#[test]
fn invalid_configurations_are_recognised() {
    assert!(config(1, 10, 1, 1, false).is_valid());
    assert!(!config(0, 10, 1, 1, false).is_valid());
    assert!(!config(1, 10, 0, 1, false).is_valid());
    assert!(!config(1, 10, 1, 0, false).is_valid());
    assert!(!config(2, u64::MAX - 1, 1, 1, false).is_valid());
    assert!(config(1, u64::MAX - 1, 1, 1, false).is_valid());
}

#[test]
fn points_of_all_walkers_come_in_time_then_walker_order() {
    let n = 3usize;
    let actions = all_actions(config(2, 25, 6, n, true));
    let keys: Vec<u64> = actions
        .iter()
        .filter_map(|a| match *a {
            Action::Emit { walker, time_us } => Some(time_us * n as u64 + walker as u64),
            Action::Advance { walker, time_us, emit: true } => Some(time_us * n as u64 + walker as u64),
            _ => None,
        })
        .collect();
    assert!(keys.len() > 2 * n);
    assert!(keys.windows(2).all(|p| p[0] < p[1]));
}
