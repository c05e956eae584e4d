//! Control requests, handing over, and watching the certificate.
use beyond_pg::cert_watcher::CertWatcher;
use beyond_pg::handoff_bridge::{new_pooler_stats, DrainReport, SharedState};
use beyond_pg::pg::PgError;
use beyond_pg::rpc::{
    answer_command, answer_health, answer_pooler, dispatch, invalid_request, request_length,
    rpc_frame, RpcResponse, Task, MAX_RPC_BODY,
};

const SEC: u64 = 1_000_000_000;

#[test]
fn drain_returns_when_in_flight_is_zero() {
    let mut s = SharedState::new();
    s.begin_drain();
    let r = s.drain_step(0, SEC).unwrap();
    assert_eq!(r.open_conns_remaining, 0);
    assert!(r.accept_closed);
    assert!(s.accept_paused);
}

#[test]
fn drain_waits_for_in_flight_to_drop() {
    let mut s = SharedState::new();
    s.on_accept();
    s.on_accept();
    s.begin_drain();
    assert_eq!(s.drain_step(0, 2 * SEC), None);
    s.on_done();
    assert_eq!(s.open_conns(), 1);
    assert_eq!(s.drain_step(25_000_000, 2 * SEC), None);
    s.on_done();
    let r = s.drain_step(50_000_000, 2 * SEC).unwrap();
    assert_eq!(r.open_conns_remaining, 0);
}

#[test]
fn drain_times_out_when_in_flight_persists() {
    let mut s = SharedState::new();
    for _ in 0..3 {
        s.on_accept();
    }
    s.begin_drain();
    assert_eq!(s.drain_step(49_999_999, 50_000_000), None);
    assert_eq!(
        s.drain_step(50_000_000, 50_000_000),
        Some(DrainReport { open_conns_remaining: 3, accept_closed: true })
    );
}

#[test]
fn resume_after_abort_clears_pause() {
    let mut s = SharedState::new();
    s.begin_drain();
    s.resume_after_abort();
    assert!(!s.accept_paused);
}

#[test]
fn request_lengths_are_limited() {
    assert_eq!(request_length(&[0, 0, 1, 2]), Ok(258));
    assert_eq!(request_length(&[0, 16, 0, 0]), Ok(MAX_RPC_BODY));
    assert_eq!(
        request_length(&[0, 16, 0, 1]),
        Err("rpc body too large: 1048577 bytes".to_string())
    );
    let f = rpc_frame(b"abc");
    assert_eq!(f, b"\x00\x00\x00\x03abc");
    assert_eq!(request_length(&f[..4]), Ok(3));
}

fn refused(r: RpcResponse) -> String {
    assert!(!r.ok);
    assert!(r.pooler.is_none());
    r.error.unwrap()
}

fn granted(r: RpcResponse) -> bool {
    r.ok && r.error.is_none()
}

#[test]
fn commands_are_told_apart() {
    assert_eq!(dispatch("checkpoint").ok(), Some(Task::Checkpoint));
    assert_eq!(dispatch("pooler").ok(), Some(Task::Pooler));
    assert_eq!(dispatch("health").ok(), Some(Task::Health));
    assert_eq!(dispatch("reload").ok(), Some(Task::Reload));
    assert_eq!(dispatch("promote").ok(), Some(Task::Promote));
    assert_eq!(refused(dispatch("backup").err().unwrap()), "not implemented");
    assert_eq!(refused(dispatch("Health").err().unwrap()), "unknown command: Health");
}

#[test]
fn answers_tell_the_outcome() {
    assert!(granted(answer_command(&Ok(()))));
    let failed = Err(PgError::NonZeroExit { code: 2, stderr: "no".into() });
    let words = PgError::NonZeroExit { code: 2, stderr: "no".into() }.to_string();
    assert_eq!(refused(answer_command(&failed)), words);
    assert!(words.contains("no"));
    assert!(granted(answer_health(true)));
    assert_eq!(refused(answer_health(false)), "postgres not ready");
    assert_eq!(refused(answer_pooler(None)), "pooler stats lock poisoned");
    let r = answer_pooler(Some(new_pooler_stats()));
    assert!(r.ok);
    assert_eq!(r.pooler.unwrap().live_workers, 0);
    assert_eq!(refused(invalid_request("eof")), "invalid request: eof");
    assert!(granted(RpcResponse::ok()));
}

#[test]
fn rotation_triggers_event() {
    let mut w = CertWatcher::new(Some((100, 0)));
    assert!(!w.on_poll(Some((100, 0))));
    assert!(w.on_poll(Some((101, 5))));
    assert!(!w.on_poll(Some((101, 5))));
    assert!(w.on_poll(None));
    assert!(!w.on_poll(Some((101, 5))), "a file that appears anew is no rotation");
    assert!(w.on_poll(Some((101, 6))));
}

#[test]
fn no_request_is_waited_for_during_a_drain() {
    let mut s = SharedState::new();
    assert!(s.accepts());
    s.begin_drain();
    assert!(!s.accepts());
    // The one that was already waited for is still counted.
    s.on_accept();
    assert_eq!(s.drain_step(0, SEC), None);
    s.on_done();
    assert!(s.drain_step(0, SEC).is_some());
    s.resume_after_abort();
    assert!(s.accepts());
}
