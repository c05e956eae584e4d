//! Decisions about the number of pooler workers.
use beyond_pg::handoff_bridge::new_pooler_stats;
use beyond_pg::scaler::{decide_scale, PgbScaler, PoolLoad, ScaleAction, SCALE_DOWN_TICKS};
use beyond_pg::supervisor::{ChildState, ScaleOutcome, Supervision};

const SEC: u64 = 1_000_000_000;
/// Past every wait between two actions.
const COOL: u64 = 3600 * SEC;

/// So many hundredths of a core, used by all workers together.
fn load(centicores: u64) -> PoolLoad {
    PoolLoad { ticks: centicores, clk_tck: 100, elapsed_ns: SEC }
}

#[test]
fn scaler_holds_until_up_streak_met() {
    let (a, up, _down) = decide_scale(&load(90), 1, 4, 0, 0, COOL);
    assert_eq!(a, ScaleAction::Hold);
    assert_eq!(up, 1);
    let (a, up, _down) = decide_scale(&load(90), 1, 4, up, 0, COOL);
    assert_eq!(a, ScaleAction::Up);
    assert_eq!(up, 0);
}

#[test]
fn scaler_never_scales_past_ceiling() {
    let (a, _u, _d) = decide_scale(&load(360), 4, 4, 99, 0, COOL);
    assert_eq!(a, ScaleAction::Hold);
}

#[test]
fn scaler_respects_up_cooldown() {
    let (a, _u, _d) = decide_scale(&load(90), 1, 4, 99, 0, SEC);
    assert_eq!(a, ScaleAction::Hold);
}

#[test]
fn scaler_scales_down_when_cold_and_streak_met() {
    let (a, _u, down) = decide_scale(&load(40), 2, 4, 0, 0, COOL);
    assert_eq!(a, ScaleAction::Hold);
    assert_eq!(down, 1);
    let (a, _u, _d) = decide_scale(&load(40), 2, 4, 0, SCALE_DOWN_TICKS - 1, COOL);
    assert_eq!(a, ScaleAction::Down);
}

#[test]
fn scaler_never_scales_below_one() {
    let (a, _u, _d) = decide_scale(&load(0), 1, 4, 0, 99, COOL);
    assert_eq!(a, ScaleAction::Hold);
}

#[test]
fn scaler_down_streak_resets_when_warm() {
    let (a, _u, down) = decide_scale(&load(140), 2, 4, 0, 5, COOL);
    assert_eq!(a, ScaleAction::Hold);
    assert_eq!(down, 0, "warm tick resets the down streak");
}

#[test]
fn hot_and_cold_meet_their_marks_exactly() {
    // Three quarters of a core is not hot yet; half a core for the rest is not cold any more.
    let (_, up, _) = decide_scale(&load(75), 1, 4, 0, 0, COOL);
    assert_eq!(up, 0);
    let (_, up, _) = decide_scale(&load(76), 1, 4, 0, 0, COOL);
    assert_eq!(up, 1);
    let (_, _, down) = decide_scale(&load(50), 2, 4, 0, 0, COOL);
    assert_eq!(down, 0);
    let (_, _, down) = decide_scale(&load(49), 2, 4, 0, 0, COOL);
    assert_eq!(down, 1);
}

fn same(pids: &[u32], ticks: u64) -> Vec<(u32, u64)> {
    pids.iter().map(|p| (*p, ticks)).collect()
}

#[test]
fn tick_baseline_then_scales_up_and_publishes_telemetry() {
    let mut stats = new_pooler_stats();
    let mut s = PgbScaler::new(4, 100);
    let t0 = 5 * SEC;
    let pids = [100u32];

    assert_eq!(s.tick_with(&same(&pids, 0), t0, &mut stats), ScaleAction::Hold);
    assert_eq!(s.tick_with(&same(&pids, 90), t0 + SEC, &mut stats), ScaleAction::Hold);
    assert_eq!(s.tick_with(&same(&pids, 180), t0 + 2 * SEC, &mut stats), ScaleAction::Up);

    assert_eq!(stats.live_workers, 1);
    assert_eq!(stats.max_workers, 4);
    assert_eq!(stats.per_worker_centicores, 90);
    assert_eq!(stats.last_action, "up");
    assert!(!stats.at_ceiling, "1 of 4 workers is not at the ceiling");
}

#[test]
fn tick_scales_down_when_cold() {
    let mut stats = new_pooler_stats();
    let mut s = PgbScaler::new(4, 100);
    s.down_streak = SCALE_DOWN_TICKS - 1;
    let t0 = 0;
    let pids = [200u32, 201u32];

    assert_eq!(s.tick_with(&same(&pids, 0), t0, &mut stats), ScaleAction::Hold);
    assert_eq!(s.tick_with(&same(&pids, 5), t0 + SEC, &mut stats), ScaleAction::Down);
    assert_eq!(stats.last_action, "down");
    assert_eq!(stats.aggregate_centicores, 10);
    assert_eq!(stats.per_worker_centicores, 5);
}

#[test]
fn tick_at_ceiling_flag_set_when_max_and_saturated() {
    let mut stats = new_pooler_stats();
    let mut s = PgbScaler::new(2, 100);
    let pids = [10u32, 11u32];

    assert_eq!(s.tick_with(&same(&pids, 0), 0, &mut stats), ScaleAction::Hold);
    assert_eq!(s.tick_with(&same(&pids, 90), SEC, &mut stats), ScaleAction::Hold);
    assert!(stats.at_ceiling, "live==max && saturated must set at_ceiling");
}

#[test]
fn tick_worker_churn_does_not_spike_aggregate() {
    let mut stats = new_pooler_stats();
    let mut s = PgbScaler::new(4, 100);

    assert_eq!(s.tick_with(&vec![(100, 1000)], 0, &mut stats), ScaleAction::Hold);
    let act = s.tick_with(&vec![(100, 1050), (200, 9_999_999)], SEC, &mut stats);
    assert_eq!(act, ScaleAction::Hold);
    assert_eq!(
        stats.aggregate_centicores, 50,
        "new worker must not spike aggregate"
    );
}

#[test]
fn ticks_that_do_not_fit_are_told() {
    let mut stats = new_pooler_stats();
    let mut s = PgbScaler::new(4, 100);
    s.tick_with(&vec![(1, 0), (2, 0)], 0, &mut stats);
    assert_eq!(s.delta_ticks(&vec![(1, u64::MAX), (2, 1)]), None);
    assert_eq!(s.delta_ticks(&vec![(1, 7), (2, 1), (3, 9)]), Some(8));
}

fn running(name: &'static str, pid: u32) -> ChildState {
    let mut c = ChildState::new(name);
    c.record_start(Some(pid), 0);
    c
}

#[test]
fn supervision_grows_and_shrinks_with_the_load() {
    let mut sup = Supervision {
        pg: running("postgres", 1),
        pgb: running("pgbouncer", 2),
        pgb_extra: Vec::new(),
        cdc: None,
    };
    let mut scaler = PgbScaler::new(2, 100);
    let mut stats = new_pooler_stats();
    let mut ticks = 0u64;
    let mut now = 0u64;
    let mut outcomes = Vec::new();
    for _ in 0..4 {
        let samples: Vec<(u32, u64)> =
            sup.pooler_pids().iter().map(|p| (*p, ticks)).collect();
        outcomes.push(sup.on_tick(
            &mut scaler,
            &samples,
            now,
            &mut stats,
            |name| Some(running(name, 3)),
            |_| panic!("nothing to reap"),
        ));
        ticks += 95;
        now += SEC;
    }
    assert_eq!(
        outcomes,
        vec![
            ScaleOutcome::NoOp,
            ScaleOutcome::NoOp,
            ScaleOutcome::SpawnedUp("pgbouncer-1"),
            ScaleOutcome::NoOp,
        ]
    );
    assert_eq!(sup.pooler_pids(), vec![2, 3]);
}
