//! The record of children, and whether they can be taken over.
use beyond_pg::children::{
    adopt, read_proc_cpu_ticks, read_proc_cpu_times, read_starttime, state_dir, AdoptResult,
    ChildRecord, PersistedChildren, ProcessProbe, StatError, STATE_FILE,
};
use beyond_pg::number::ParseIntError;

/// A status line with this name, CPU time and start.
fn stat(name: &str, utime: &str, stime: &str, start: &str) -> String {
    format!(
        "1234 ({name}) S 1 1 1 0 -1 4194560 100 0 0 0 {utime} {stime} 0 0 20 0 1 0 {start} 1000 10"
    )
}

#[test]
fn records_are_kept_by_name() {
    let mut pc = PersistedChildren::empty();
    assert_eq!(pc.version, 1);
    pc.children.insert("postgres".to_string(), ChildRecord { pid: 1234, starttime: 56789 });
    assert_eq!(pc.children.len(), 1);
    let r = pc.get("postgres").unwrap();
    assert_eq!(r.pid, 1234);
    assert_eq!(r.starttime, 56789);
    assert!(pc.get("pgbouncer").is_none());

    assert!(pc.record_with_starttime("pgbouncer", 7, 8).is_ok());
    assert!(pc.record_with_starttime("beyond-pg-cdc", 9, 10).is_ok());
    assert!(pc.record_with_starttime("postgres", 11, 12).is_ok());
    assert_eq!(pc.children.len(), 3);
    assert_eq!(pc.get("postgres"), Some(&ChildRecord { pid: 11, starttime: 12 }));
    let names: Vec<&str> = pc.children.entries.iter().map(|e| e.0.as_str()).collect();
    assert_eq!(names, vec!["beyond-pg-cdc", "pgbouncer", "postgres"]);

    pc.remove("pgbouncer");
    pc.remove("pgbouncer");
    assert!(pc.get("pgbouncer").is_none());
    assert_eq!(pc.children.len(), 2);
}

#[test]
fn recording_reads_the_start() {
    let mut pc = PersistedChildren::empty();
    assert!(pc.record("postgres", 42, &stat("postgres", "1", "2", "777")).is_ok());
    assert_eq!(pc.get("postgres"), Some(&ChildRecord { pid: 42, starttime: 777 }));
    assert_eq!(pc.record("other", 43, "nonsense"), Err(StatError::NoParen));
    assert!(pc.get("other").is_none());
}

#[test]
fn read_starttime_for_self() {
    assert_eq!(read_starttime(&stat("a) b (c", "1", "2", "99")), Ok(99));
    assert_eq!(read_starttime("1 (x"), Err(StatError::NoParen));
    assert_eq!(read_starttime("1 (x)"), Err(StatError::Truncated));
    assert_eq!(read_starttime("1 (x) S 1 2"), Err(StatError::TooShort));
    assert_eq!(
        read_starttime(&stat("x", "1", "2", "-1")),
        Err(StatError::BadNumber(ParseIntError::InvalidDigit))
    );
    assert_eq!(StatError::NoParen.message(), "no `)` in stat");
    assert_eq!(StatError::Truncated.message(), "stat truncated");
    assert_eq!(StatError::TooShort.message(), "stat too short");
}

#[test]
fn cpu_time_is_both_modes_together() {
    let s = stat("pgbouncer", "30", "12", "1");
    assert_eq!(read_proc_cpu_times(&s), Ok((30, 12)));
    assert_eq!(read_proc_cpu_ticks(&s), Ok(42));
    assert!(read_proc_cpu_ticks("x").is_err());
}

#[test]
fn adopt_dead_pid_returns_dead() {
    let record = ChildRecord { pid: 5, starttime: 1 };
    assert_eq!(adopt(&record, &ProcessProbe::Gone), Ok(AdoptResult::Dead));
}

#[test]
fn adopt_self_succeeds() {
    let s = stat("postgres", "1", "2", "777");
    let record = ChildRecord { pid: 5, starttime: read_starttime(&s).unwrap() };
    assert_eq!(adopt(&record, &ProcessProbe::Stat(s)), Ok(AdoptResult::Adopted));
}

#[test]
fn adopt_with_wrong_starttime_reports_recycled() {
    let record = ChildRecord { pid: 5, starttime: u64::MAX };
    match adopt(&record, &ProcessProbe::Stat(stat("postgres", "1", "2", "777"))) {
        Ok(AdoptResult::Recycled { saved, live }) => {
            assert_eq!(saved, u64::MAX);
            assert!(live < u64::MAX);
        }
        other => panic!("expected Recycled, got {other:?}"),
    }
}

#[test]
fn record_has_its_place() {
    assert_eq!(state_dir(), "/var/lib/beyond-pg/state");
    assert_eq!(STATE_FILE, "children.json");
}
