//! The boot: its steps, its files, and what it finds.
use beyond_pg::boot::{
    boot_steps, busy_retry_delay_ms, gap_list_url, gap_segment_path, gap_segment_url,
    gap_segments, hugepages_fallback, kernel_steps, materialize_template_into, maybe_initdb,
    next_segment, parent_of, pg_controldata_redo_wal, script_order, script_outcome, template_marker,
    touch_standby_signal, verify_wal_symlink, write_config_files, write_pitr_config_into,
    write_replica_conf, BootError, BootStep, FileOp, FsOp, InitStep, KernelStep, PgdataState,
    ScriptEntry, WalLink, HUGEPAGES_FALLBACK_CONF,
};
use beyond_pg::config::{DURABILITY_CONF_EPHEMERAL, PG_HBA_CONF};
use beyond_pg::mmds::{MmdsConfig, MmdsError, PgTier};
use beyond_pg::tls::{provision, TlsError};
use std::collections::BTreeMap;

const PGDATA: &str = "/var/lib/postgresql/18/main";

fn test_cfg(wal_sink: Option<&str>, recovery_target_time: Option<&str>) -> MmdsConfig {
    MmdsConfig {
        pg_tier: PgTier::Single,
        ephemeral: false,
        postgres_password: "test".into(),
        postgres_database: "postgres".into(),
        wal_sink: wal_sink.map(str::to_owned),
        cdc_enabled: false,
        recovery_target_time: recovery_target_time.map(str::to_owned),
        primary_conninfo: None,
        replication_password: None,
        ram_bytes: 4 * 1024 * 1024 * 1024,
        vcpus: 2,
    }
}

/// Files by path, and the operations done to them.
type Files = BTreeMap<String, String>;

fn apply(files: &mut Files, ops: Vec<FileOp>) {
    for op in ops {
        match op {
            FileOp::Write { path, text } => {
                files.insert(path, text);
            }
            FileOp::Touch(p) => {
                files.entry(p).or_default();
            }
            FileOp::Remove(p) => {
                files.remove(&p);
            }
            FileOp::EnsureDir(_) | FileOp::EnsureOwnedDir(_) => {}
        }
    }
}

// --- recovery to a point in time ---

#[test]
fn kernel_is_set_up_in_order() {
    assert_eq!(
        kernel_steps(1024),
        vec![
            KernelStep::ApplySysctl,
            KernelStep::StopTransparentHugepages,
            KernelStep::ReserveHugepages(544),
        ]
    );
}

#[test]
fn pitr_config_not_written_without_recovery_target() {
    let mut files = Files::new();
    let cfg = test_cfg(Some("http://10.0.0.5:9000"), None);
    apply(&mut files, write_pitr_config_into(&cfg, "/pgdata"));
    assert!(!files.contains_key("/pgdata/conf.d/05-pitr.conf"));
    assert!(!files.contains_key("/pgdata/recovery.signal"));
}

#[test]
fn pitr_config_and_signal_written_in_pitr_mode() {
    let mut files = Files::new();
    let cfg = test_cfg(Some("http://10.0.0.5:9000"), Some("2026-05-14 03:00:00"));
    apply(&mut files, write_pitr_config_into(&cfg, "/pgdata"));

    let content = &files["/pgdata/conf.d/05-pitr.conf"];
    assert!(
        content.contains("restore_command = 'curl -f -s http://10.0.0.5:9000/%f -o %p'"),
        "restore_command wrong: {content}"
    );
    assert!(
        content.contains("recovery_target_time = '2026-05-14 03:00:00'"),
        "{content}"
    );
    assert!(
        content.contains("recovery_target_action = promote"),
        "{content}"
    );
    assert!(
        content.contains("recovery_target_inclusive = true"),
        "{content}"
    );
    assert!(
        files.contains_key("/pgdata/recovery.signal"),
        "recovery.signal must exist in PITR mode"
    );
}

#[test]
fn pitr_config_removed_when_recovery_target_cleared() {
    let mut files = Files::new();
    let cfg = test_cfg(Some("http://10.0.0.5:9000"), Some("2026-05-14 03:00:00"));
    apply(&mut files, write_pitr_config_into(&cfg, "/pgdata"));
    assert!(files.contains_key("/pgdata/conf.d/05-pitr.conf"));
    assert!(files.contains_key("/pgdata/recovery.signal"));

    let cfg = test_cfg(Some("http://10.0.0.5:9000"), None);
    apply(&mut files, write_pitr_config_into(&cfg, "/pgdata"));
    assert!(
        !files.contains_key("/pgdata/conf.d/05-pitr.conf"),
        "05-pitr.conf should be removed when recovery target cleared"
    );
    assert!(
        !files.contains_key("/pgdata/recovery.signal"),
        "recovery.signal should be removed when not in PITR mode"
    );
}

#[test]
fn write_pitr_config_is_idempotent() {
    let cfg = test_cfg(Some("s3://bucket/prefix"), Some("2026-05-14 03:00:00"));
    let mut once = Files::new();
    apply(&mut once, write_pitr_config_into(&cfg, "/pgdata"));
    let mut thrice = once.clone();
    apply(&mut thrice, write_pitr_config_into(&cfg, "/pgdata"));
    apply(&mut thrice, write_pitr_config_into(&cfg, "/pgdata"));

    assert_eq!(once, thrice);
    assert!(thrice.contains_key("/pgdata/recovery.signal"));
    let content = &thrice["/pgdata/conf.d/05-pitr.conf"];
    assert!(content.contains("recovery_target_time = '2026-05-14 03:00:00'"));
    assert!(content.contains("restore_command = 'aws s3 cp s3://bucket/prefix/%f %p --no-progress'"));
}

// --- the template ---

/// A tree: the files below it, and where its links point.
#[derive(Clone, Debug, PartialEq)]
struct Tree {
    files: Vec<&'static str>,
    pg_wal: Option<String>,
}

fn run(fs: &mut BTreeMap<String, Tree>, ops: &[FsOp]) {
    for op in ops {
        match op {
            FsOp::Remove(p) => {
                let inside = format!("{p}/");
                fs.retain(|q, _| q != p && !q.starts_with(&inside));
            }
            FsOp::CopyTree { from, to } => {
                let t = fs[from].clone();
                fs.insert(to.clone(), t);
            }
            FsOp::Relink { link, target } => {
                let owner = link.strip_suffix("/pg_wal").unwrap();
                fs.get_mut(owner).unwrap().pg_wal = Some(target.clone());
            }
            FsOp::Rename { from, to } => {
                let t = fs.remove(from).unwrap();
                fs.insert(to.clone(), t);
            }
            FsOp::SyncTree(_) | FsOp::SyncDir(_) => {}
        }
    }
}

fn fake_template() -> BTreeMap<String, Tree> {
    let mut fs = BTreeMap::new();
    fs.insert(
        "/template/main".to_string(),
        Tree {
            files: vec!["PG_VERSION", "postgresql.conf"],
            pg_wal: Some("/template/wal".to_string()),
        },
    );
    fs.insert(
        "/template/wal".to_string(),
        Tree { files: vec!["000000010000000000000001"], pg_wal: None },
    );
    fs
}

#[test]
fn template_available_detects_pg_version() {
    assert_eq!(template_marker("/template"), "/template/main/PG_VERSION");
}

#[test]
fn materialize_copies_template_and_repoints_wal_symlink() {
    let mut fs = fake_template();
    run(&mut fs, &materialize_template_into("/template", "/data/main", "/data/wal"));
    assert_eq!(fs["/data/main"].files, vec!["PG_VERSION", "postgresql.conf"]);
    assert_eq!(fs["/data/wal"].files, vec!["000000010000000000000001"]);
    assert_eq!(fs["/data/main"].pg_wal.as_deref(), Some("/data/wal"));
    assert!(!fs.contains_key("/data/main.staging"));
    assert!(!fs.contains_key("/data/wal.staging"));
    assert!(verify_wal_symlink(&WalLink::Symlink("/var/lib/postgresql/18/wal".into())).is_ok());
}

#[test]
fn materialize_is_idempotent() {
    let mut fs = fake_template();
    let ops = materialize_template_into("/template", "/data/main", "/data/wal");
    run(&mut fs, &ops);
    let once = fs.clone();
    run(&mut fs, &ops);
    assert_eq!(fs, once);
    assert!(fs["/data/main"].files.contains(&"PG_VERSION"));
    assert_eq!(fs["/data/main"].pg_wal.as_deref(), Some("/data/wal"));
}

#[test]
fn materialize_recovers_from_leftover_staging() {
    let mut fs = fake_template();
    let stale = Tree { files: vec!["garbage"], pg_wal: None };
    fs.insert("/data/main.staging".to_string(), stale.clone());
    fs.insert("/data/wal.staging".to_string(), stale.clone());
    fs.insert("/data/main".to_string(), Tree { files: vec![], pg_wal: None });
    run(&mut fs, &materialize_template_into("/template", "/data/main", "/data/wal"));
    assert!(fs["/data/main"].files.contains(&"PG_VERSION"));
    assert!(!fs["/data/main"].files.contains(&"garbage"), "stale staging must not leak in");
}

#[test]
fn data_directory_is_never_half_there() {
    let ops = materialize_template_into("/template", "/data/main", "/data/wal");
    for k in 3..=ops.len() {
        let mut fs = fake_template();
        let stale = Tree { files: vec!["garbage"], pg_wal: None };
        fs.insert("/data/main".to_string(), stale.clone());
        fs.insert("/data/main/base".to_string(), stale.clone());
        fs.insert("/data/wal/archive_status".to_string(), stale);
        run(&mut fs, &ops[..k]);
        assert!(!fs.contains_key("/data/main/base"));
        assert!(k < 4 || !fs.contains_key("/data/wal/archive_status"));
        match fs.get("/data/main") {
            None => assert!(k < 11),
            Some(t) => {
                assert_eq!(t.pg_wal.as_deref(), Some("/data/wal"));
                assert!(fs.contains_key("/data/wal"));
            }
        }
    }
    assert!(matches!(ops.last(), Some(FsOp::SyncDir(p)) if p == "/data"));
}

#[test]
fn parents_are_found() {
    assert_eq!(parent_of("/data/main"), Some("/data".to_string()));
    assert_eq!(parent_of("/data//main/"), Some("/data".to_string()));
    assert_eq!(parent_of("/data"), Some("/".to_string()));
    assert_eq!(parent_of("main"), Some("".to_string()));
    assert_eq!(parent_of("/"), None);
    assert_eq!(parent_of("/a/."), Some("/".to_string()));
    assert_eq!(parent_of("./a"), Some(".".to_string()));
    assert_eq!(parent_of("a/./b"), Some("a".to_string()));
    assert_eq!(parent_of("/."), None);
    assert_eq!(parent_of("."), Some("".to_string()));
    assert_eq!(parent_of(""), None);
}

// --- scripts ---

fn entry(name: &str, is_file: bool, mode: u32) -> ScriptEntry {
    ScriptEntry { name: name.to_string(), is_file, mode }
}

#[test]
fn hook_missing_dir_returns_ok() {
    assert!(script_order(&Vec::new()).is_empty());
}

#[test]
fn hook_scripts_run_in_lexicographic_order() {
    let entries = vec![
        entry("20-z.sh", true, 0o755),
        entry("10-a.sh", true, 0o755),
        entry("15-m.sh", true, 0o755),
    ];
    assert_eq!(script_order(&entries), vec![1, 2, 0]);
}

#[test]
fn hook_non_executable_files_are_skipped() {
    let entries = vec![
        entry("01-would-fail.sh", true, 0o644),
        entry("02-ok.sh", true, 0o755),
        entry("03-dir", false, 0o755),
        entry("04-group.sh", true, 0o010),
    ];
    assert_eq!(script_order(&entries), vec![1, 3]);
}

#[test]
fn hook_nonzero_exit_returns_hook_failed() {
    match script_outcome("/hooks/01-fail.sh", false, Some(42)) {
        Err(BootError::HookFailed { path, code }) => {
            assert_eq!(code, 42, "expected exit code 42, got {code}");
            assert_eq!(path, "/hooks/01-fail.sh");
        }
        other => panic!("expected HookFailed, got {other:?}"),
    }
    match script_outcome("x", false, None) {
        Err(e) => assert_eq!(e.to_string(), "hook script x failed with exit code -1"),
        Ok(()) => panic!("killed by a signal"),
    }
    assert!(script_outcome("x", true, Some(0)).is_ok());
}

#[test]
fn busy_scripts_are_tried_three_times_more() {
    let waits: Vec<Option<u64>> = (0..5).map(|n| busy_retry_delay_ms(true, n)).collect();
    assert_eq!(waits, vec![Some(10), Some(20), Some(40), None, None]);
    assert_eq!(busy_retry_delay_ms(false, 0), None);
}

// --- the order of the boot ---

#[test]
fn boot_has_its_order() {
    let mut cfg = test_cfg(None, None);
    let steps = boot_steps(&cfg);
    assert_eq!(
        steps,
        vec![
            BootStep::EnsureSocketDir,
            BootStep::MaybeInitdb,
            BootStep::EnsureConfD,
            BootStep::VerifyWalSymlink,
            BootStep::FetchWalGap,
            BootStep::ProvisionTls,
            BootStep::WriteConfigFiles,
            BootStep::WritePitrConfig,
            BootStep::ApplyKernelSettings(1024),
            BootStep::RunPreStartHooks,
        ]
    );
    cfg.pg_tier = PgTier::Replica;
    let steps = boot_steps(&cfg);
    let at = |s: BootStep| steps.iter().position(|x| *x == s).unwrap();
    assert!(at(BootStep::BaseBackup) < at(BootStep::EnsureConfD));
    assert!(at(BootStep::EnsureConfD) < at(BootStep::WriteConfigFiles));
    assert!(at(BootStep::WriteReplicaConf) < at(BootStep::ChownDataTree));
    assert_eq!(steps.len(), 11);
}

#[test]
fn data_directory_is_initialized_once() {
    assert!(maybe_initdb(PgdataState::Initialized, true).is_empty());
    assert_eq!(
        maybe_initdb(PgdataState::Partial, false),
        vec![
            InitStep::RemovePgdata,
            InitStep::CreatePgdata,
            InitStep::ChownDataTree,
            InitStep::RunInitdb,
        ]
    );
    assert_eq!(
        maybe_initdb(PgdataState::Missing, true),
        vec![
            InitStep::CreatePgdata,
            InitStep::ChownDataTree,
            InitStep::MaterializeTemplate,
        ]
    );
    assert_eq!(
        maybe_initdb(PgdataState::Empty, false),
        vec![InitStep::ChownDataTree, InitStep::RunInitdb]
    );
}

#[test]
fn wal_link_is_checked() {
    let check = |l: WalLink| verify_wal_symlink(&l);
    assert!(check(WalLink::Symlink("/var/lib/postgresql/18/wal".into())).is_ok());
    assert!(check(WalLink::Symlink("/var/lib//postgresql/./18/wal/".into())).is_ok());
    assert!(check(WalLink::Other).is_ok());
    assert!(matches!(check(WalLink::Directory), Err(BootError::WalIsDirectory)));
    match check(WalLink::Symlink("var/lib/postgresql/18/wal".into())) {
        Err(BootError::WalWrongTarget { expected, actual }) => {
            assert_eq!(expected, "/var/lib/postgresql/18/wal");
            assert_eq!(actual, "var/lib/postgresql/18/wal");
        }
        other => panic!("{other:?}"),
    }
    match check(WalLink::Missing) {
        Err(e) => assert_eq!(
            e.to_string(),
            "I/O error: pg_wal symlink missing at /var/lib/postgresql/18/main/pg_wal after initdb"
        ),
        Ok(()) => panic!("missing"),
    }
}

#[test]
fn boot_errors_have_words() {
    let text = |e: BootError| e.to_string();
    assert_eq!(
        text(BootError::Mmds(MmdsError::Invalid("x".into()))),
        "MMDS error: MMDS invalid: x"
    );
    assert_eq!(text(BootError::InitDb("x".into())), "initdb failed: x");
    assert_eq!(text(BootError::BaseBackup("x".into())), "pg_basebackup failed: x");
    assert_eq!(
        text(BootError::Tls(TlsError::PostgresUserNotFound)),
        format!("TLS cert error: {}", TlsError::PostgresUserNotFound.to_string())
    );
    assert!(text(BootError::WalIsDirectory).starts_with("pg_wal exists as a plain directory"));
    assert_eq!(
        text(BootError::WalWrongTarget { expected: "a".into(), actual: "b".into() }),
        "pg_wal symlink points to wrong target: expected a, got b"
    );
}

// --- configuration files ---

#[test]
fn config_files_are_all_written() {
    let tls = provision(PGDATA, false, false);
    let mut cfg = test_cfg(Some("http://10.0.0.5:9000"), None);
    cfg.ephemeral = true;
    cfg.cdc_enabled = true;
    cfg.vcpus = 8;
    let mut files = Files::new();
    apply(&mut files, write_config_files(&cfg, &tls, &Vec::new()));
    assert_eq!(
        files[&format!("{PGDATA}/conf.d/03-durability.conf")],
        DURABILITY_CONF_EPHEMERAL
    );
    assert!(files[&format!("{PGDATA}/conf.d/03-wal-sink.conf")].contains("wal_sink"));
    assert_eq!(
        files["/etc/postgresql/18/main/pg_hba.conf"],
        format!("{PG_HBA_CONF}local replication replicator trust\n")
    );
    assert!(files.contains_key("/etc/pgbouncer/pgbouncer.ini"));
    assert!(files.contains_key("/etc/pgbouncer/pgbouncer-2.ini"));
    assert!(files[&format!("{PGDATA}/conf.d/06-tls.conf")].contains("ssl_cert_file"));
    assert_eq!(files.len(), 9);

    let mut again = files.clone();
    apply(&mut again, write_config_files(&cfg, &tls, &Vec::new()));
    assert_eq!(files, again);

    // Without the volume, the capture and the sink, nothing of them is left.
    let cfg = test_cfg(None, None);
    apply(&mut files, write_config_files(&cfg, &tls, &Vec::new()));
    assert!(!files.contains_key(&format!("{PGDATA}/conf.d/03-durability.conf")));
    assert!(!files.contains_key(&format!("{PGDATA}/conf.d/03-wal-sink.conf")));
    assert_eq!(files["/etc/postgresql/18/main/pg_hba.conf"], PG_HBA_CONF);
}

#[test]
fn recovering_node_does_not_wait_for_the_sink() {
    let tls = provision(PGDATA, false, false);
    let cfg = test_cfg(Some("http://10.0.0.5:9000"), Some("2026-05-14 03:00:00"));
    let mut files = Files::new();
    files.insert(format!("{PGDATA}/conf.d/03-wal-sink.conf"), "old".to_string());
    apply(&mut files, write_config_files(&cfg, &tls, &Vec::new()));
    assert!(!files.contains_key(&format!("{PGDATA}/conf.d/03-wal-sink.conf")));
}

#[test]
fn peer_directories_come_with_several_workers() {
    let tls = provision(PGDATA, false, false);
    let mut cfg = test_cfg(None, None);
    let dirs = |cfg: &MmdsConfig| {
        write_config_files(cfg, &tls, &Vec::new())
            .into_iter()
            .filter(|op| matches!(op, FileOp::EnsureOwnedDir(_)))
            .count()
    };
    assert_eq!(dirs(&cfg), 0);
    cfg.vcpus = 16;
    assert_eq!(dirs(&cfg), 4);
}

#[test]
fn replica_files_are_written() {
    let mut cfg = test_cfg(Some("http://10.0.0.5:9000"), None);
    cfg.primary_conninfo = Some("host=10.0.0.1".into());
    match write_replica_conf(&cfg) {
        FileOp::Write { path, text } => {
            assert_eq!(path, format!("{PGDATA}/conf.d/04-replica.conf"));
            assert!(text.contains("primary_conninfo = 'host=10.0.0.1'"));
            assert!(text.contains("http://10.0.0.5:9000/%f"));
        }
        other => panic!("{other:?}"),
    }
    match touch_standby_signal() {
        FileOp::Touch(p) => assert_eq!(p, format!("{PGDATA}/standby.signal")),
        other => panic!("{other:?}"),
    }
}

#[test]
fn server_does_without_huge_pages() {
    assert!(hugepages_fallback(true).is_none());
    match hugepages_fallback(false) {
        Some(FileOp::Write { path, text }) => {
            assert_eq!(path, format!("{PGDATA}/conf.d/99-hugepages-fallback.conf"));
            assert_eq!(text, HUGEPAGES_FALLBACK_CONF);
            assert!(text.ends_with("\nhuge_pages = try\n"));
        }
        other => panic!("{other:?}"),
    }
}

// --- segments that only the sink has ---

#[test]
fn redo_segment_is_read() {
    let out = b"pg_control version number:            1800\nLatest checkpoint's REDO WAL file:    000000010000000000000003\n";
    assert_eq!(
        pg_controldata_redo_wal(true, out),
        Some("000000010000000000000003".to_string())
    );
    assert_eq!(pg_controldata_redo_wal(false, out), None);
    assert_eq!(
        pg_controldata_redo_wal(true, b"Latest checkpoint's REDO WAL file:    none\n"),
        None
    );
    assert_eq!(pg_controldata_redo_wal(true, b"\xff"), None);
}

#[test]
fn needed_segments_are_picked() {
    let listing = b"000000010000000000000002\n 000000010000000000000003 \r\nREADME\n000000010000000000000004.partial\n000000010000000000000005\n";
    assert_eq!(
        gap_segments(listing, "000000010000000000000003"),
        Ok(vec![
            "000000010000000000000003".to_string(),
            "000000010000000000000005".to_string(),
        ])
    );
    assert!(gap_segments(b"\xff\n", "0").is_err());
    assert_eq!(gap_list_url(Some("http://s:1"), Some("x")), Some("http://s:1/list".to_string()));
    assert_eq!(gap_list_url(None, Some("x")), None);
    assert_eq!(gap_list_url(Some("http://s:1"), None), None);
    assert_eq!(gap_segment_url("http://s:1", "seg"), "http://s:1/seg");
    assert_eq!(
        gap_segment_path("seg"),
        "/var/lib/postgresql/18/main/pg_wal/seg"
    );
}

#[test]
fn parents_are_those_of_the_standard_library() {
    let mut paths = vec![String::new()];
    for _ in 0..7 {
        let longer = paths.iter().flat_map(|p| ["/", ".", "a"].map(|c| format!("{p}{c}")));
        let longer: Vec<String> = longer.collect();
        paths.extend(longer);
        paths.sort();
        paths.dedup();
    }
    assert!(paths.len() > 3000);
    for p in &paths {
        let parent = std::path::Path::new(p).parent().map(|q| q.to_str().unwrap().to_string());
        assert_eq!(parent_of(p), parent, "{p}");
    }
}

#[test]
fn only_missing_segments_are_fetched() {
    let names = |ns: &[&str]| ns.iter().map(|n| n.to_string()).collect::<Vec<String>>();
    let segments = names(&["1", "2", "3", "2", "4"]);
    // Fetching works but for the last one.
    let mut present = names(&["1"]);
    let mut fetched = Vec::new();
    let mut from = 0;
    while let Some(i) = next_segment(&segments, from, &present) {
        fetched.push(segments[i].clone());
        if segments[i] != "4" {
            present.push(segments[i].clone());
        }
        from = i + 1;
    }
    assert_eq!(fetched, names(&["2", "3", "4"]));
    assert_eq!(next_segment(&segments, 4, &present), Some(4));
    assert_eq!(next_segment(&segments, 5, &present), None);
    assert_eq!(next_segment(&segments, 9, &present), None);
    assert_eq!(next_segment(&segments, 0, &segments), None);
}
