//! Commands on the server, the template, and forwarding its log.
use beyond_pg::pg::{
    active_backends, active_backends_args, alter_role_password_sql, basebackup_args,
    basebackup_needed, command_outcome, initdb_args, isready_args, promote_args, psql_args,
    psql_script_args, quiesced, reload_args, PgError,
};
use beyond_pg::template::{
    build, build_outcome, build_postgres_args, create_extensions, extension_outcome, BuildStep,
    TemplateError, TEMPLATE_DIR,
};
use beyond_pg::wal_forwarder::{
    parse_sink_addr, sink_frame, sink_frame_body, start_of_new_slot, AfterForward, ReaderAction,
    RetryDelay, WalReader, STATUS_INTERVAL_NS,
};
use beyond_pg::wal_proto::lsn::Lsn;
use beyond_pg::wal_proto::replication::{recv_wal, status_update, WalMsg};
use beyond_pg::wal_proto::wire::{IoFailure, IoKind, RecvError};

const PGDATA: &str = "/var/lib/postgresql/18/main";

#[test]
fn basebackup_idempotency_predicates() {
    assert!(matches!(basebackup_needed(false, false), Ok(true)));
    assert!(matches!(basebackup_needed(true, true), Ok(false)));
    assert!(matches!(basebackup_needed(true, false), Err(PgError::AlreadyPrimary)));
}

#[test]
fn commands_end_well_or_not() {
    assert!(command_outcome(true, Some(0), b"").is_ok());
    match command_outcome(false, Some(3), b"oops\xff") {
        Err(PgError::NonZeroExit { code, stderr }) => {
            assert_eq!(code, 3);
            assert_eq!(stderr, "oops\u{fffd}");
        }
        other => panic!("{other:?}"),
    }
    assert!(matches!(command_outcome(false, None, b""), Err(PgError::Signal)));
    assert!(PgError::Io("x".into()).to_string().contains("x"));
}

#[test]
fn commands_have_their_arguments() {
    let socket = "/var/run/postgresql";
    let psql = psql_args("SELECT 1");
    assert!(psql.ends_with(&["-c".to_string(), "SELECT 1".to_string()]));
    assert!(psql.contains(&socket.to_string()));
    assert!(psql.contains(&"5433".to_string()));
    assert!(psql_script_args().contains(&"ON_ERROR_STOP=1".to_string()));
    assert!(active_backends_args().contains(&"-tAc".to_string()));
    assert_eq!(isready_args(), vec!["-h", socket, "-p", "5433", "-q"]);
    assert_eq!(reload_args(), vec!["reload", "-D", PGDATA]);
    assert_eq!(promote_args(), vec!["promote", "-w", "-t", "55", "-D", PGDATA]);
    assert!(initdb_args("/d", "/w", "/p").contains(&"--pwfile=/p".to_string()));
    assert!(basebackup_args("host=x").contains(&"host=x".to_string()));
    assert_eq!(
        alter_role_password_sql("postgres", "it's"),
        "ALTER ROLE postgres WITH PASSWORD $_beyond_$it's$_beyond_$"
    );
}

#[test]
fn running_queries_are_waited_for() {
    assert_eq!(active_backends(true, b" 3\n"), Some(3));
    assert_eq!(active_backends(false, b"3"), None);
    assert_eq!(active_backends(true, b"x"), None);
    assert!(quiesced(None, 0, 10));
    assert!(quiesced(Some(0), 0, 10));
    assert!(!quiesced(Some(1), 9, 10));
    assert!(quiesced(Some(1), 10, 10));
}

#[test]
fn template_is_built_in_order() {
    let steps = build(true);
    assert_eq!(steps[0], BuildStep::RemoveDir);
    assert_eq!(steps[1..], build(false)[..]);
    let at = |s: BuildStep| steps.iter().position(|x| *x == s).unwrap();
    assert!(at(BuildStep::InitDb) < at(BuildStep::SpawnPostgres));
    assert!(at(BuildStep::CreateExtensions) < at(BuildStep::Shutdown));
    assert_eq!(steps.last(), Some(&BuildStep::ChownDir));
    assert_eq!(TEMPLATE_DIR, "/usr/local/share/beyond-pg/pgdata-template");

    let not_ready = || Err(TemplateError::NotReady(60));
    let stop = || Err(TemplateError::Shutdown("exit status 1".into()));
    assert!(build_outcome(Ok(()), Ok(())).is_ok());
    assert!(matches!(build_outcome(not_ready(), stop()), Err(TemplateError::NotReady(60))));
    assert!(matches!(build_outcome(Ok(()), stop()), Err(TemplateError::Shutdown(_))));
}

#[test]
fn template_server_is_local() {
    let args = build_postgres_args("/t/main", "pg_cron");
    assert_eq!(args[..4], ["-D", "/t/main", "-c", "shared_preload_libraries=pg_cron"]);
    assert!(args.contains(&"listen_addresses=".to_string()));
    assert!(args.contains(&"port=5433".to_string()));
    assert!(args.contains(&"hba_file=/etc/postgresql/18/main/pg_hba.conf".to_string()));
    assert_eq!(args.len(), 18);
}

#[test]
fn template_extensions_are_those_installed() {
    let installed = vec!["postgis".to_string(), "pg_cron".to_string()];
    let steps = create_extensions(&installed);
    let found: Vec<(&str, bool)> = steps.iter().map(|s| (s.ext.as_str(), s.required)).collect();
    assert_eq!(found, vec![("pg_cron", true), ("postgis", false)]);
    match extension_outcome(&steps[0], Err(PgError::Signal)) {
        Err(e) => assert!(e.to_string().starts_with("required extension pg_cron failed: ")),
        Ok(()) => panic!("required"),
    }
    assert!(extension_outcome(&steps[1], Err(PgError::Signal)).is_ok());
    assert!(extension_outcome(&steps[0], Ok(())).is_ok());
}

#[test]
fn template_errors_have_words() {
    assert_eq!(TemplateError::Io("x".into()).to_string(), "I/O error: x");
    assert_eq!(TemplateError::InitDb("x".into()).to_string(), "initdb failed: x");
    assert_eq!(
        TemplateError::NotReady(60).to_string(),
        "postgres did not become ready within 60s"
    );
    assert_eq!(
        TemplateError::Shutdown("x".into()).to_string(),
        "postgres shutdown failed: x"
    );
}

#[test]
fn sink_addresses_are_read() {
    assert_eq!(parse_sink_addr("http://10.0.0.5:9000"), Ok(("10.0.0.5".to_string(), 9000)));
    assert_eq!(parse_sink_addr("https://sink:1/x"), Ok(("sink".to_string(), 1)));
    assert_eq!(parse_sink_addr("sink"), Err("wal_sink URL missing port".to_string()));
    assert_eq!(
        parse_sink_addr("sink:x"),
        Err("invalid digit found in string".to_string())
    );
    assert_eq!(
        parse_sink_addr("sink:65536"),
        Err("number too large to fit in target type".to_string())
    );
    assert_eq!(
        parse_sink_addr("sink:"),
        Err("cannot parse integer from empty string".to_string())
    );
}

#[test]
fn retries_wait_longer() {
    let mut d = RetryDelay::new();
    let waits: Vec<u64> = (0..7).map(|_| d.on_failure()).collect();
    assert_eq!(waits, vec![1, 2, 4, 8, 16, 30, 30]);
    d.on_success();
    assert_eq!(d.on_failure(), 1);
}

#[test]
fn sink_receives_what_was_sent() {
    let body = sink_frame_body(Lsn(5), Lsn(9), b"data");
    let frame = sink_frame(&body);
    assert_eq!(&frame[..4], &(body.len() as u32).to_be_bytes());
    match recv_wal(b'd', &frame[4..]) {
        Some(Ok(WalMsg::XLogData { start_lsn, end_lsn, wal_data })) => {
            assert_eq!((start_lsn, end_lsn), (Lsn(5), Lsn(9)));
            assert_eq!(wal_data, b"data");
        }
        _ => panic!("log data"),
    }
}

#[test]
fn reader_forwards_and_reports() {
    assert_eq!(start_of_new_slot(Some(Lsn(7))), Some(Lsn(7)));
    assert_eq!(start_of_new_slot(Some(Lsn(0))), None);
    assert_eq!(start_of_new_slot(None), None);

    let mut r = WalReader::new(Lsn(7), 0);
    let data = WalMsg::XLogData { start_lsn: Lsn(7), end_lsn: Lsn(8), wal_data: b"x".to_vec() };
    match r.on_received(Ok(data), 1) {
        ReaderAction::Forward { start_lsn, body } => {
            assert_eq!(start_lsn, Lsn(7));
            assert_eq!(body, sink_frame_body(Lsn(7), Lsn(8), b"x"));
        }
        _ => panic!("forward"),
    }
    r.on_ack(Lsn(8));
    assert_eq!((r.write_lsn, r.flush_lsn), (Lsn(8), Lsn(8)));
    let status = |r: &WalReader, reply: bool, now: u64| {
        let k = WalMsg::Keepalive { server_lsn: Lsn(9), reply_needed: reply };
        match r.on_received(Ok(k), now) {
            ReaderAction::Check { status } => status,
            _ => panic!("check"),
        }
    };
    assert!(!status(&r, false, STATUS_INTERVAL_NS));
    assert!(status(&r, false, STATUS_INTERVAL_NS + 1));
    assert!(status(&r, true, 1));
    r.on_status_sent(STATUS_INTERVAL_NS);
    assert!(!status(&r, false, STATUS_INTERVAL_NS + 1));

    let io = |kind: IoKind| Err(RecvError::Io(IoFailure { kind, message: "m".into() }));
    assert!(matches!(r.on_received(io(IoKind::TimedOut), 1), ReaderAction::Check { status: true }));
    assert!(matches!(
        r.on_received(io(IoKind::WouldBlock), 1),
        ReaderAction::Check { status: true }
    ));
    assert!(matches!(
        r.on_received(Err(RecvError::Protocol("p".into())), 1),
        ReaderAction::Fail(_)
    ));
}

#[test]
fn only_acknowledged_positions_are_reported() {
    let mut r = WalReader::new(Lsn(7), 0);
    assert_eq!(r.status(3), status_update(Lsn(7), Lsn(7), 3));
    // What the server sent is not reported before the sink has it.
    let k = WalMsg::Keepalive { server_lsn: Lsn(99), reply_needed: true };
    assert!(matches!(r.on_received(Ok(k), 1), ReaderAction::Check { status: true }));
    r.on_status_sent(1);
    assert_eq!(r.status(4), status_update(Lsn(7), Lsn(7), 4));
    assert_eq!(r.on_forwarded(Some(Lsn(42))), AfterForward::Report);
    assert_eq!(r.status(5), status_update(Lsn(42), Lsn(42), 5));
    let status = r.status(5);
    assert_eq!(status.len(), 34);
    assert_eq!(status[0], b'r');
    assert_eq!(&status[1..9], &42u64.to_be_bytes());
    assert_eq!(&status[9..17], &42u64.to_be_bytes());
    assert_eq!(r.on_forwarded(None), AfterForward::Stop);
    assert_eq!(r.status(6), status_update(Lsn(42), Lsn(42), 6));
}
