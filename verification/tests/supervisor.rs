//! Children, their restarts, and the number of pooler workers.
use beyond_pg::children::{ChildRecord, PersistedChildren, ProcessProbe};
use beyond_pg::mmds::{MmdsConfig, PgTier};
use beyond_pg::scaler::ScaleAction;
use beyond_pg::sql::{CDC_PUBLICATION_SQL, CDC_SLOT_SQL, REPLICATOR_ROLE_SQL};
use beyond_pg::supervisor::{
    adopt_or_respawn_child, apply_scale_action, child_command, child_kind, cold_start, drain_step,
    extension_file, extra_name, forwards_log, listener_kind, memory_update_due,
    parse_memtotal_kib, poll_step, pooler_peer, post_start, read_memtotal_bytes, recorded_extras,
    rpc_listener_source, stop_steps, stragglers, successor_children, sync_standby_sql,
    warm_start_extra_count, Adoption, ChildKind, ChildState, ColdStep, DrainStep, Effect, Event,
    ListenerKind, ListenerSource, PollStep, PostStep, ScaleOutcome, StopStep, Supervision,
    DRAIN_TIMEOUT_NS, PGB_EXTRA_COUNT, STABLE_RUNTIME_NS,
};
use std::cell::Cell;

fn words(ws: &[&str]) -> Vec<String> {
    ws.iter().map(|w| w.to_string()).collect()
}

fn config(tier: PgTier, sink: bool, cdc: bool) -> MmdsConfig {
    MmdsConfig {
        pg_tier: tier,
        ephemeral: false,
        postgres_password: "secret".into(),
        postgres_database: "postgres".into(),
        wal_sink: if sink { Some("http://10.0.0.5:9000".into()) } else { None },
        cdc_enabled: cdc,
        recovery_target_time: None,
        primary_conninfo: None,
        replication_password: None,
        ram_bytes: 4 * 1024 * 1024 * 1024,
        vcpus: 8,
    }
}

#[test]
fn warm_start_clamps_to_current_max_workers() {
    assert_eq!(warm_start_extra_count(4, 64), 4);
    assert_eq!(warm_start_extra_count(7, 8), 1);
    assert_eq!(warm_start_extra_count(3, 2), 0);
    assert_eq!(warm_start_extra_count(0, 64), 0);
}

#[test]
fn apply_up_spawns_workers_in_name_order() {
    let mut extra: Vec<ChildState> = Vec::new();
    let out = apply_scale_action(
        ScaleAction::Up,
        &mut extra,
        |name| Some(ChildState::new(name)),
        |_w| panic!("reap must not run on Up"),
    );
    assert_eq!(out, ScaleOutcome::SpawnedUp("pgbouncer-1"));
    assert_eq!(extra.len(), 1);
    assert_eq!(extra[0].name, "pgbouncer-1");

    let out = apply_scale_action(
        ScaleAction::Up,
        &mut extra,
        |name| Some(ChildState::new(name)),
        |_w| {},
    );
    assert_eq!(out, ScaleOutcome::SpawnedUp("pgbouncer-2"));
    assert_eq!(extra.len(), 2);
}

#[test]
fn apply_down_reaps_last_but_keeps_it_pending() {
    let mut extra = vec![
        ChildState::new("pgbouncer-1"),
        ChildState::new("pgbouncer-2"),
    ];
    let reaped = Cell::new("");
    let out = apply_scale_action(
        ScaleAction::Down,
        &mut extra,
        |_n| panic!("spawn must not run on Down"),
        |w| reaped.set(w.name),
    );
    assert_eq!(out, ScaleOutcome::ReapedDown("pgbouncer-2"));
    assert_eq!(reaped.get(), "pgbouncer-2");
    assert_eq!(extra.len(), 2);
}

#[test]
fn apply_up_noops_at_name_cap() {
    let mut extra: Vec<ChildState> =
        (0..PGB_EXTRA_COUNT).map(|i| ChildState::new(extra_name(i))).collect();
    assert_eq!(extra.len(), PGB_EXTRA_COUNT);
    let out = apply_scale_action(
        ScaleAction::Up,
        &mut extra,
        |_n| panic!("must not spawn past the name cap"),
        |_w| {},
    );
    assert_eq!(out, ScaleOutcome::NoOp);
    assert_eq!(extra.len(), PGB_EXTRA_COUNT);
}

#[test]
fn apply_spawn_failure_and_empty_down_are_noops() {
    let mut extra: Vec<ChildState> = Vec::new();
    assert_eq!(
        apply_scale_action(ScaleAction::Up, &mut extra, |_n| None, |_w| {}),
        ScaleOutcome::NoOp
    );
    assert!(extra.is_empty());
    assert_eq!(
        apply_scale_action(ScaleAction::Down, &mut extra, |_n| None, |_w| {}),
        ScaleOutcome::NoOp
    );
}

#[test]
fn parse_memtotal_standard_format() {
    let input = "MemTotal:       16384000 kB\nMemFree:        8192000 kB\n";
    assert_eq!(parse_memtotal_kib(input), Some(16_384_000));
    assert_eq!(read_memtotal_bytes(input), Some(16_384_000 * 1024));
}

#[test]
fn parse_memtotal_missing_returns_none() {
    let input = "MemFree:  1000 kB\nSwapTotal:  0 kB\n";
    assert_eq!(parse_memtotal_kib(input), None);
}

#[test]
fn parse_memtotal_empty_returns_none() {
    assert_eq!(parse_memtotal_kib(""), None);
}

#[test]
fn memory_watcher_threshold_5pct() {
    let last = 4_096_000_000u64;

    let delta = last * 4 / 100;
    assert!(!memory_update_due(last, last + delta), "4% should be below threshold (skip)");
    assert!(!memory_update_due(last, last - delta));

    let delta = last / 20;
    assert!(!memory_update_due(last, last + delta), "5% should be at threshold (skip)");
    assert!(!memory_update_due(last, last - delta));

    let delta = last * 6 / 100;
    assert!(memory_update_due(last, last + delta), "6% should exceed threshold (update)");
    assert!(memory_update_due(last, last - delta));
}

// --- starting ---

#[test]
fn cold_start_has_its_order() {
    assert_eq!(
        cold_start(&config(PgTier::Primary, true, true), 3),
        vec![
            ColdStep::Boot,
            ColdStep::SpawnPostgres,
            ColdStep::WaitReady(60),
            ColdStep::StartForwarder,
            ColdStep::WaitSyncStandby(30),
            ColdStep::PostStart,
            ColdStep::SpawnPooler,
            ColdStep::SpawnExtras(1),
            ColdStep::SpawnCdc,
        ]
    );
    assert_eq!(
        cold_start(&config(PgTier::Replica, true, true), 0),
        vec![
            ColdStep::Boot,
            ColdStep::SpawnPostgres,
            ColdStep::WaitReady(60),
            ColdStep::SpawnPooler,
            ColdStep::SpawnExtras(0),
        ]
    );
    assert!(forwards_log(&config(PgTier::Single, true, false)));
    assert!(!forwards_log(&config(PgTier::Replica, true, false)));
    assert!(!forwards_log(&config(PgTier::Single, false, false)));
}

#[test]
fn pooler_size_survives_a_restart() {
    let mut prior = PersistedChildren::empty();
    for name in ["postgres", "pgbouncer", "pgbouncer-1", "pgbouncer-2", "pgbouncer-3"] {
        assert!(prior.record_with_starttime(name, 1, 2).is_ok());
    }
    let recorded = recorded_extras(&prior);
    assert_eq!(recorded, 3);
    let mut cfg = config(PgTier::Single, false, false);
    cfg.vcpus = 64;
    assert!(cold_start(&cfg, recorded).contains(&ColdStep::SpawnExtras(3)));
    cfg.vcpus = 1;
    assert!(cold_start(&cfg, recorded).contains(&ColdStep::SpawnExtras(0)));
}

#[test]
fn successor_takes_over_what_ran() {
    let mut prior = PersistedChildren::empty();
    for name in ["postgres", "pgbouncer", "pgbouncer-1", "pgbouncer-3", "beyond-pg-cdc"] {
        assert!(prior.record_with_starttime(name, 1, 2).is_ok());
    }
    assert_eq!(recorded_extras(&prior), 2);
    assert_eq!(
        successor_children(&prior, &config(PgTier::Primary, false, true)),
        vec!["postgres", "pgbouncer", "pgbouncer-1", "pgbouncer-3", "beyond-pg-cdc"]
    );
    assert_eq!(
        successor_children(&prior, &config(PgTier::Replica, false, true)),
        vec!["postgres", "pgbouncer", "pgbouncer-1", "pgbouncer-3"]
    );
    assert_eq!(
        successor_children(&PersistedChildren::empty(), &config(PgTier::Primary, false, true)),
        vec!["postgres", "pgbouncer"]
    );
}

#[test]
fn children_are_adopted_or_started_anew() {
    let stat = "7 (postgres) S 1 1 1 0 -1 0 0 0 0 0 1 2 0 0 20 0 1 0 555 0";
    let rec = ChildRecord { pid: 7, starttime: 555 };
    let found = || ProcessProbe::Stat(stat.to_string());
    assert_eq!(
        adopt_or_respawn_child("postgres", Some(&rec), &found()).ok(),
        Some(Adoption::Adopt(7))
    );
    let other = ChildRecord { pid: 7, starttime: 556 };
    assert_eq!(
        adopt_or_respawn_child("postgres", Some(&other), &found()).ok(),
        Some(Adoption::Respawn(ChildKind::Postgres))
    );
    assert_eq!(
        adopt_or_respawn_child("pgbouncer-2", Some(&rec), &ProcessProbe::Gone).ok(),
        Some(Adoption::Respawn(ChildKind::Pooler))
    );
    assert_eq!(
        adopt_or_respawn_child("beyond-pg-cdc", None, &ProcessProbe::Gone).ok(),
        Some(Adoption::Respawn(ChildKind::Cdc))
    );
    let e = adopt_or_respawn_child("other", None, &ProcessProbe::Gone).err().unwrap();
    assert_eq!(e.to_string(), "unknown child name in adoption: other");
    assert_eq!(
        adopt_or_respawn_child("postgres", Some(&rec), &ProcessProbe::Stat("x".into())).ok(),
        Some(Adoption::Respawn(ChildKind::Postgres))
    );
}

#[test]
fn kinds_have_their_commands() {
    assert_eq!(child_kind("pgbouncer-7"), Some(ChildKind::Pooler));
    assert_eq!(child_kind("pgbouncer-8"), None);
    assert_eq!(
        child_command("postgres"),
        Some(words(&["postgres", "-D", "/var/lib/postgresql/18/main"]))
    );
    assert_eq!(
        child_command("pgbouncer"),
        Some(words(&["pgbouncer", "/etc/pgbouncer/pgbouncer.ini"]))
    );
    assert_eq!(
        child_command("pgbouncer-1"),
        Some(words(&["pgbouncer", "/etc/pgbouncer/pgbouncer-2.ini"]))
    );
    assert_eq!(
        child_command("pgbouncer-7"),
        Some(words(&["pgbouncer", "/etc/pgbouncer/pgbouncer-8.ini"]))
    );
    assert_eq!(child_command("pgbouncer-8"), None);
    assert_eq!(pooler_peer("pgbouncer-3"), 4);
    assert_eq!(
        child_command("beyond-pg-cdc"),
        Some(words(&[
            "beyond-pg-cdc",
            "--slot",
            "cdc",
            "--publication",
            "cdc",
            "--http-port",
            "9001",
        ]))
    );
}

// --- running ---

#[test]
fn restarts_wait_longer_until_a_stable_run() {
    let mut c = ChildState::new("postgres");
    let mut waits = Vec::new();
    for i in 0..10u64 {
        waits.push(c.backoff_ms());
        c.record_start(Some(1), i);
        c.on_exit(i + 1);
        assert_eq!(c.pid, None);
    }
    assert_eq!(waits, vec![100, 200, 400, 800, 1600, 3200, 6400, 12800, 25600, 25600]);
    c.record_start(Some(1), 0);
    c.on_exit(STABLE_RUNTIME_NS - 1);
    assert_eq!(c.backoff_ms(), 25600);
    c.record_start(Some(1), 0);
    c.on_exit(STABLE_RUNTIME_NS);
    assert_eq!(c.backoff_ms(), 100);
    c.record_start(Some(1), 0);
    c.record_adopted(9, 0);
    assert_eq!((c.pid, c.restart_count), (Some(9), 0));
}

fn running(name: &'static str, pid: u32) -> ChildState {
    let mut c = ChildState::new(name);
    c.record_start(Some(pid), 0);
    c
}

fn supervision() -> Supervision {
    Supervision {
        pg: running("postgres", 1),
        pgb: running("pgbouncer", 2),
        pgb_extra: vec![running("pgbouncer-1", 3), running("pgbouncer-2", 4)],
        cdc: Some(running("beyond-pg-cdc", 5)),
    }
}

#[test]
fn events_have_their_effects() {
    let mut s = supervision();
    assert_eq!(s.pooler_pids(), vec![2, 3, 4]);
    assert_eq!(s.all_pids(), vec![1, 2, 3, 4, 5]);
    match s.on_event(Event::PostgresExited, 1) {
        Effect::Restart { kind, delay_ms } => {
            assert_eq!((kind, delay_ms), (ChildKind::Postgres, 200))
        }
        other => panic!("{other:?}"),
    }
    assert_eq!(s.pg.pid, None);
    match s.on_event(Event::PoolerExited, STABLE_RUNTIME_NS) {
        Effect::Restart { kind, delay_ms } => {
            assert_eq!((kind, delay_ms), (ChildKind::Pooler, 100))
        }
        other => panic!("{other:?}"),
    }
    match s.on_event(Event::CdcExited, 1) {
        Effect::Restart { kind, .. } => assert_eq!(kind, ChildKind::Cdc),
        other => panic!("{other:?}"),
    }
    match s.on_event(Event::ExtraExited(0), 1) {
        Effect::Forget(name) => assert_eq!(name, "pgbouncer-1"),
        other => panic!("{other:?}"),
    }
    assert_eq!(s.pgb_extra.len(), 1);
    assert!(matches!(s.on_event(Event::ExtraExited(1), 1), Effect::Nothing));
    match s.on_event(Event::CertRotated, 1) {
        Effect::Reload(pids) => assert_eq!(pids, vec![4]),
        other => panic!("{other:?}"),
    }
    assert!(matches!(s.on_event(Event::Stop, 1), Effect::Drain));
    s.cdc = None;
    assert!(matches!(s.on_event(Event::CdcExited, 1), Effect::Nothing));
}

// --- stopping ---

#[test]
fn stopping_waits_and_then_kills() {
    assert_eq!(
        stop_steps(false),
        vec![StopStep::AbortForwarder, StopStep::DrainChildren, StopStep::StopBackgroundTasks]
    );
    assert_eq!(
        stop_steps(true),
        vec![
            StopStep::AbortForwarder,
            StopStep::DrainChildren,
            StopStep::StopBackgroundTasks,
            StopStep::PowerOff,
        ]
    );
    let pids = vec![1, 2, 3];
    let some = vec![true, false, true];
    let all = vec![true, true, true];
    assert_eq!(stragglers(&pids, &some), vec![2]);
    assert_eq!(drain_step(&pids, &all, 0), DrainStep::Done);
    assert_eq!(drain_step(&pids, &all, DRAIN_TIMEOUT_NS), DrainStep::Done);
    assert_eq!(drain_step(&pids, &some, DRAIN_TIMEOUT_NS - 1), DrainStep::Wait);
    assert_eq!(drain_step(&pids, &some, DRAIN_TIMEOUT_NS), DrainStep::Kill);
    assert_eq!(drain_step(&Vec::new(), &Vec::new(), 0), DrainStep::Done);
}

// --- waiting ---

#[test]
fn waits_end() {
    assert_eq!(poll_step(true, 9, 5), PollStep::Ready);
    assert_eq!(poll_step(false, 4, 5), PollStep::Again);
    assert_eq!(poll_step(false, 5, 5), PollStep::GiveUp);
    assert_eq!(
        sync_standby_sql("wal_sink"),
        "DO $$ BEGIN IF NOT EXISTS (SELECT 1 FROM pg_stat_replication WHERE application_name = 'wal_sink' AND sync_state IN ('sync','quorum')) THEN RAISE EXCEPTION 'wal_sink not yet a sync standby'; END IF; END $$"
    );
}

// --- the first statements ---

#[test]
fn first_statements() {
    let installed = vec!["pg_cron".to_string()];
    let steps = post_start(&config(PgTier::Primary, false, true), &installed);
    match &steps[0] {
        PostStep::Secret { sql, complaint } => {
            assert_eq!(sql, "ALTER ROLE postgres WITH PASSWORD $_beyond_$secret$_beyond_$");
            assert_eq!(complaint, "failed to set postgres password: ");
        }
        other => panic!("{other:?}"),
    }
    let required: Vec<(&str, &str)> = steps
        .iter()
        .filter_map(|s| match s {
            PostStep::Required { sql, complaint } => Some((sql.as_str(), complaint.as_str())),
            _ => None,
        })
        .collect();
    assert_eq!(required.len(), 9);
    assert_eq!(required[4].0, "GRANT EXECUTE ON FUNCTION pgbouncer.get_auth(text) TO pgbouncer");
    assert_eq!(
        required[5],
        ("CREATE EXTENSION IF NOT EXISTS pg_cron", "required extension pg_cron failed: ")
    );
    assert_eq!(required[6].0, REPLICATOR_ROLE_SQL);
    assert_eq!(required[7].0, CDC_SLOT_SQL);
    assert_eq!(required[8].0, CDC_PUBLICATION_SQL);
    let optional = steps.iter().filter(|s| matches!(s, PostStep::Optional { .. })).count();
    assert_eq!(optional, 11);
    match steps.last() {
        Some(PostStep::Hooks { dir, complaint }) => {
            assert_eq!(dir, "/etc/postgresql/18/hooks/post-start.d");
            assert_eq!(complaint, "post-start hook failed: ");
        }
        other => panic!("{other:?}"),
    }
    let plain = post_start(&config(PgTier::Primary, false, false), &Vec::new());
    assert_eq!(plain.len(), 1 + 5 + 11 + 1);
    let sink = post_start(&config(PgTier::Primary, true, false), &Vec::new());
    assert_eq!(sink.len(), plain.len() + 1);
    assert_eq!(extension_file("pg_cron"), "/usr/lib/postgresql/18/lib/pg_cron.so");
}

// --- listeners ---

#[test]
fn listeners_are_told_apart() {
    assert_eq!(listener_kind(1), Ok(ListenerKind::Unix));
    assert_eq!(listener_kind(40), Ok(ListenerKind::Vsock));
    assert_eq!(
        listener_kind(-2),
        Err("inherited rpc fd has unexpected socket family: -2".to_string())
    );
    assert_eq!(rpc_listener_source(false, false), Ok(ListenerSource::Fresh));
    assert_eq!(rpc_listener_source(false, true), Ok(ListenerSource::Inherited));
    assert_eq!(rpc_listener_source(true, true), Ok(ListenerSource::Inherited));
    assert_eq!(
        rpc_listener_source(true, false),
        Err("inherited listener 'rpc' missing from successor".to_string())
    );
}
