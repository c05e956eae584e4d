//! Positions in the log, and the replication protocol.
use beyond_pg::wal_proto::connect::{connect_startup, ConnectStep, Connecting};
use beyond_pg::wal_proto::crypto::{hmac_sha256, pbkdf2_hmac_sha256, sha256, xor_blocks};
use beyond_pg::wal_proto::lsn::Lsn;
use beyond_pg::wal_proto::replication::{
    column_text, create_slot_payload, find_column, highest_local_lsn, highest_segment,
    identify_system_payload, on_start_message, pg_clock, recv_wal, segment_start_of,
    start_replication_payload, status_update, Identity, IdentityStep, SlotRequest, SlotStep,
    StartStep, WalMsg, WAL_SEGMENT_SIZE,
};
use beyond_pg::wal_proto::scram::{
    answer_server_first, build_client_first_bare, build_initial_payload, check_server_final,
    fresh_nonce, has_scram, no_mechanism, nonce_of,
};
use beyond_pg::wal_proto::wire::{
    decode_error, read_msg_header, startup_message, write_msg, IoFailure, IoKind, RecvError,
};

fn names(items: &[&str]) -> Vec<String> {
    items.iter().map(|s| s.to_string()).collect()
}

// --- positions ---

#[test]
fn lsn_roundtrip() {
    let lsn = Lsn(0x0000_0001_2345_6780);
    assert_eq!(lsn.to_string(), "1/23456780");
    assert_eq!("1/23456780".parse::<Lsn>().unwrap(), lsn);
}

#[test]
fn lsn_zero() {
    assert_eq!(Lsn::zero().to_string(), "0/00000000");
    assert_eq!("0/00000000".parse::<Lsn>().unwrap(), Lsn::zero());
}

#[test]
fn lsn_be_bytes() {
    let lsn = Lsn(0x0102_0304_0506_0708);
    assert_eq!(lsn.to_be_bytes(), [1, 2, 3, 4, 5, 6, 7, 8]);
    assert_eq!(Lsn::from_be_bytes([1, 2, 3, 4, 5, 6, 7, 8]), lsn);
}

#[test]
fn lsn_parse_error() {
    assert!("noslash".parse::<Lsn>().is_err());
    assert!("X/GGGGGGGG".parse::<Lsn>().is_err());
}

#[test]
fn lsn_ordering() {
    assert!(Lsn(1) < Lsn(2));
    assert!(Lsn(0x1_0000_0000) > Lsn(0xFFFF_FFFF));
}

// --- segments ---

#[test]
fn highest_local_lsn_seg_hi_zero() {
    let dir = names(&["0000000100000000000000001", "000000010000000000000001"]);
    let lsn = highest_local_lsn(&dir).unwrap();
    assert_eq!(lsn, Lsn(2 * WAL_SEGMENT_SIZE));
}

#[test]
fn highest_local_lsn_seg_hi_nonzero() {
    let dir = names(&["000000010000000100000000"]);
    let lsn = highest_local_lsn(&dir).unwrap();
    assert_eq!(lsn, Lsn((1u64 << 32) + WAL_SEGMENT_SIZE));
}

#[test]
fn highest_local_lsn_multiple_timelines() {
    let dir = names(&[
        "000000010000000000000001",
        "000000010000000000000002",
        "000000020000000000000000",
    ]);
    let lsn = highest_local_lsn(&dir).unwrap();
    assert_eq!(lsn, Lsn(WAL_SEGMENT_SIZE));
    assert_eq!(highest_segment(&dir), Some(2));
}

#[test]
fn highest_local_lsn_empty_dir() {
    assert!(highest_local_lsn(&names(&[])).is_none());
}

#[test]
fn highest_local_lsn_ignores_partials() {
    let dir = names(&["000000010000000000000001.partial", "000000010000000000000001"]);
    let lsn = highest_local_lsn(&dir).unwrap();
    assert_eq!(lsn, Lsn(2 * WAL_SEGMENT_SIZE));
    assert_eq!(segment_start_of("000000010000000000000001"), WAL_SEGMENT_SIZE);
}

// --- errors ---

#[test]
fn decode_error_extracts_fields() {
    let payload = b"SERROR\0C42P01\0Mtable not found\0\0";
    assert_eq!(decode_error(payload), "ERROR 42P01: table not found");
}

#[test]
fn decode_error_includes_detail_and_hint() {
    let payload = b"SERROR\0C42P01\0Mmsg\0Dsome detail\0Htry this\0\0";
    let out = decode_error(payload);
    assert!(out.contains("DETAIL: some detail"), "{out}");
    assert!(out.contains("HINT: try this"), "{out}");
}

#[test]
fn decode_error_unknown_when_no_message() {
    assert_eq!(decode_error(b"\0"), "unknown postgres error");
}

#[test]
fn recv_error_implements_error_trait() {
    let e = RecvError::Protocol("test".into());
    assert!(e.to_string().contains("test"));
}

#[test]
fn every_fault_has_words() {
    let io = RecvError::Io(IoFailure { kind: IoKind::TimedOut, message: "late".into() });
    assert!(io.to_string().contains("late"));
    assert!(RecvError::Config("bad".into()).to_string().contains("bad"));
}

// --- cryptography ---

#[test]
fn hmac_sha256_known_vector() {
    let key = b"key";
    let data = b"The quick brown fox jumps over the lazy dog";
    let result = hmac_sha256(key, data);
    let expected = [
        0xf7, 0xbc, 0x83, 0xf4, 0x30, 0x53, 0x84, 0x24, 0xb1, 0x32, 0x98, 0xe6, 0xaa, 0x6f, 0xb1,
        0x43, 0xef, 0x4d, 0x59, 0xa1, 0x49, 0x46, 0x17, 0x59, 0x97, 0x47, 0x9d, 0xbc, 0x2d, 0x1a,
        0x3c, 0xd8,
    ];
    assert_eq!(result, expected);
}

#[test]
fn sha256_of_nothing() {
    let expected = [
        0xe3, 0xb0, 0xc4, 0x42, 0x98, 0xfc, 0x1c, 0x14, 0x9a, 0xfb, 0xf4, 0xc8, 0x99, 0x6f, 0xb9,
        0x24, 0x27, 0xae, 0x41, 0xe4, 0x64, 0x9b, 0x93, 0x4c, 0xa4, 0x95, 0x99, 0x1b, 0x78, 0x52,
        0xb8, 0x55,
    ];
    assert_eq!(sha256(b""), expected);
}

#[test]
fn pbkdf2_one_iteration_equals_single_hmac() {
    let result = pbkdf2_hmac_sha256(b"password", b"salt", 1);
    let expected = hmac_sha256(b"password", b"salt\x00\x00\x00\x01");
    assert_eq!(result, expected);
}

#[test]
fn pbkdf2_two_iterations_xor() {
    let u1 = hmac_sha256(b"password", b"salt\x00\x00\x00\x01");
    let u2 = hmac_sha256(b"password", &u1);
    let mut expected = u1;
    for (a, b) in expected.iter_mut().zip(u2.iter()) {
        *a ^= b;
    }
    assert_eq!(pbkdf2_hmac_sha256(b"password", b"salt", 2), expected);
    assert_eq!(xor_blocks(&xor_blocks(&u1, &u2), &u2), u1);
}

// --- framing ---

#[test]
fn message_header_reads_back() {
    let m = write_msg(b'Q', b"abc");
    assert_eq!(m, b"Q\x00\x00\x00\x07abc");
    let hdr = [m[0], m[1], m[2], m[3], m[4]];
    assert_eq!(read_msg_header(&hdr), Ok((b'Q', 3)));
    assert!(read_msg_header(&[b'Q', 0, 0, 0, 3]).is_err());
}

#[test]
fn startup_names_its_parameters() {
    let m = startup_message(&[("user", "u")]);
    assert_eq!(m, b"\x00\x00\x00\x10\x00\x03\x00\x00user\x00u\x00\x00");
    let c = connect_startup("replicator", "wal_sink");
    let text = String::from_utf8_lossy(&c).into_owned();
    assert!(text.contains("user\0replicator\0"));
    assert!(text.contains("application_name\0wal_sink\0"));
    assert!(text.contains("replication\0"));
}

// --- authentication ---

/// The exchange of RFC 7677, whose user is `user` and whose password is `pencil`.
const NONCE: &str = "rOprNGfwEbeRWgbNEkqO";
const SERVER_FIRST: &str = "r=rOprNGfwEbeRWgbNEkqO%hvYDpWUa2RaTCAfuxFIlj)hNlF$k0,s=W22ZaJ0SNY7soEsUEjb6gQ==,i=4096";
const CLIENT_FINAL: &str = "c=biws,r=rOprNGfwEbeRWgbNEkqO%hvYDpWUa2RaTCAfuxFIlj)hNlF$k0,p=dHzbZapWIk4jUhN+Ute9ytag9zjfMHgsqmmiz7AndVQ=";
const SIGNATURE: &str = "6rriTRBi23WpRR/wtup+mMhUZUn/dB5nLTJRsjl95G4=";

#[test]
fn scram_follows_the_published_exchange() {
    let bare = build_client_first_bare("user", NONCE);
    assert_eq!(bare, format!("n=user,r={NONCE}"));
    let a = match answer_server_first("pencil", &bare, NONCE, SERVER_FIRST.as_bytes()) {
        Ok(a) => a,
        Err(e) => panic!("{e}"),
    };
    assert_eq!(String::from_utf8(a.response).unwrap(), CLIENT_FINAL);
    assert_eq!(a.signature, SIGNATURE);
    assert!(check_server_final(format!("v={SIGNATURE}").as_bytes(), &a.signature).is_ok());
    assert_eq!(
        check_server_final(b"v=AAAA", &a.signature),
        Err("SCRAM server signature mismatch".to_string())
    );
    assert_eq!(
        check_server_final(b"e=other-error", &a.signature),
        Err("SCRAM server error: other-error".to_string())
    );
    assert_eq!(
        check_server_final(b"x", &a.signature),
        Err("SASL final message missing 'v=' field".to_string())
    );
}

#[test]
fn scram_refuses_what_does_not_fit() {
    let bare = build_client_first_bare("user", NONCE);
    let fail = |first: &[u8]| answer_server_first("pencil", &bare, NONCE, first).err().unwrap();
    assert_eq!(
        fail(b"r=other,s=W22ZaJ0SNY7soEsUEjb6gQ==,i=4096"),
        "server nonce does not extend client nonce"
    );
    assert_eq!(
        fail(format!("r={NONCE}x,s=W22ZaJ0SNY7soEsUEjb6gQ==,i=0").as_bytes()),
        "invalid SCRAM iteration count"
    );
    assert!(fail(format!("r={NONCE}x,s=*,i=4096").as_bytes()).starts_with("SCRAM salt: "));
    assert!(fail(b"\xff").starts_with("SASL server-first not UTF-8: "));
}

#[test]
fn user_names_are_escaped() {
    assert_eq!(build_client_first_bare("a=b,c", "n"), "n=a=3Db=2Cc,r=n");
    assert_eq!(
        build_initial_payload("n=u,r=n"),
        b"SCRAM-SHA-256\x00\x00\x00\x00\x0an,,n=u,r=n"
    );
}

#[test]
fn mechanisms_are_searched() {
    assert!(has_scram(b"SCRAM-SHA-256-PLUS\0SCRAM-SHA-256\0\0"));
    assert!(!has_scram(b"PLAIN\0\0"));
    assert_eq!(
        no_mechanism(b"PLAIN\0"),
        "server does not offer SCRAM-SHA-256; available: \"PLAIN\\0\""
    );
}

#[test]
fn nonce_follows_what_was_drawn() {
    let raw: Vec<u8> = (0..18).collect();
    assert_eq!(nonce_of(Ok(raw)), Ok("AAECAwQFBgcICQoLDA0ODxAR".to_string()));
    assert_eq!(nonce_of(Err("no source".to_string())), Err("getrandom: no source".to_string()));
}

#[test]
fn nonces_are_long_and_differ() {
    let a = fresh_nonce().unwrap();
    let b = fresh_nonce().unwrap();
    assert_eq!(a.len(), 24);
    assert_ne!(a, b);
}

fn sasl(kind: u8, body: &[u8]) -> Vec<u8> {
    let mut v = vec![0, 0, 0, kind];
    v.extend_from_slice(body);
    v
}

#[test]
fn connecting_runs_the_exchange_to_its_end() {
    let mut c = Connecting::new("user", Some("pencil"));
    let offer = sasl(10, b"SCRAM-SHA-256\0\0");
    match c.on_message_with_nonce(b'R', &offer, NONCE) {
        ConnectStep::Send(p) => assert!(p.starts_with(b"SCRAM-SHA-256\0")),
        _ => panic!("expected the first message"),
    }
    match c.on_message(b'R', &sasl(11, SERVER_FIRST.as_bytes())) {
        ConnectStep::Send(p) => assert_eq!(p, CLIENT_FINAL.as_bytes()),
        _ => panic!("expected the proof"),
    }
    let last = format!("v={SIGNATURE}");
    assert!(matches!(c.on_message(b'R', &sasl(12, last.as_bytes())), ConnectStep::Read));
    assert!(matches!(c.on_message(b'R', &sasl(0, b"")), ConnectStep::Read));
    assert!(matches!(c.on_message(b'S', b"x\0y\0"), ConnectStep::Read));
    assert!(matches!(c.on_message(b'Z', b"I"), ConnectStep::Ready));
}

#[test]
fn connecting_stops_at_what_it_cannot_do() {
    let mut c = Connecting::new("user", None);
    match c.on_message(b'R', &sasl(10, b"SCRAM-SHA-256\0\0")) {
        ConnectStep::Fail(RecvError::Config(_)) => {}
        _ => panic!("no password"),
    }
    let mut c = Connecting::new("user", Some("pw"));
    assert!(matches!(c.on_message(b'R', &sasl(5, b"salt")), ConnectStep::Fail(_)));
    let mut c = Connecting::new("user", Some("pw"));
    match c.on_message(b'E', b"SFATAL\0C28000\0Mno\0\0") {
        ConnectStep::Fail(e) => assert!(e.to_string().contains("FATAL 28000: no")),
        _ => panic!("an error"),
    }
    match c.on_message(b'?', b"") {
        ConnectStep::Fail(e) => {
            assert!(e.to_string().contains("unexpected tag 63 during connect"))
        }
        _ => panic!("an unknown tag"),
    }
    match c.on_message_with_nonce(b'R', &sasl(10, b"SCRAM-SHA-256\0\0"), NONCE) {
        ConnectStep::Send(_) => {}
        _ => panic!("the first message"),
    }
    match c.on_message(b'Z', b"I") {
        ConnectStep::Fail(e) => {
            assert!(e.to_string().contains("expected AuthenticationSASLContinue"))
        }
        _ => panic!("the exchange was left"),
    }
}

// --- replication ---

fn row(columns: &[Option<&[u8]>]) -> Vec<u8> {
    let mut v = vec![0, columns.len() as u8];
    for c in columns {
        match c {
            Some(b) => {
                v.extend_from_slice(&(b.len() as u32).to_be_bytes());
                v.extend_from_slice(b);
            }
            None => v.extend_from_slice(&[0xff, 0xff, 0xff, 0xff]),
        }
    }
    v
}

#[test]
fn columns_are_found() {
    let r = row(&[Some(b"a"), None, Some(b"ccc")]);
    assert_eq!(find_column(&r, 0), Some(&b"a"[..]));
    assert_eq!(column_text(&r, 2), Some("ccc".to_string()));
    assert_eq!(find_column(&r, 1), None);
    assert_eq!(find_column(&r, 3), None);
    assert_eq!(find_column(&r[..5], 0), None);
}

#[test]
fn slot_is_created_or_there_already() {
    assert_eq!(
        create_slot_payload("wal_sink"),
        b"CREATE_REPLICATION_SLOT wal_sink PHYSICAL\0"
    );
    let mut s = SlotRequest::new();
    assert!(matches!(s.on_message(b'T', b""), SlotStep::Read));
    let r = row(&[Some(b"wal_sink"), Some(b"0/1000000"), None, None]);
    assert!(matches!(s.on_message(b'D', &r), SlotStep::Read));
    match s.on_message(b'Z', b"I") {
        SlotStep::Done(p) => assert_eq!(p, Some(Lsn(0x100_0000))),
        _ => panic!("the slot was created"),
    }
    let mut s = SlotRequest::new();
    assert!(matches!(
        s.on_message(b'E', b"SERROR\0C42710\0Mreplication slot already exists\0\0"),
        SlotStep::Read
    ));
    assert!(matches!(s.on_message(b'Z', b"I"), SlotStep::Done(None)));
    let mut s = SlotRequest::new();
    assert!(matches!(
        s.on_message(b'E', b"SERROR\0C53400\0Mtoo many slots\0\0"),
        SlotStep::Fail(_)
    ));
}

#[test]
fn system_is_identified() {
    assert_eq!(identify_system_payload(), b"IDENTIFY_SYSTEM\0");
    let mut s = Identity::new();
    let r = row(&[Some(b"7000"), Some(b"3"), Some(b"1/20"), None]);
    assert!(matches!(s.on_message(b'D', &r), IdentityStep::Read));
    match s.on_message(b'Z', b"I") {
        IdentityStep::Done(t, l) => {
            assert_eq!(t, 3);
            assert_eq!(l, Lsn(0x1_0000_0020));
        }
        _ => panic!("identified"),
    }
    let mut s = Identity::new();
    assert!(matches!(s.on_message(b'E', b"Mno\0\0"), IdentityStep::Fail(_)));
}

#[test]
fn replication_starts() {
    assert_eq!(
        start_replication_payload("wal_sink", Lsn(0x1_2345_6780)),
        b"START_REPLICATION SLOT wal_sink PHYSICAL 1/23456780\0"
    );
    assert!(matches!(on_start_message(b'W', b""), StartStep::Started));
    assert!(matches!(on_start_message(b'N', b""), StartStep::Read));
    assert!(matches!(on_start_message(b'E', b"Mno\0\0"), StartStep::Fail(_)));
}

#[test]
fn log_data_and_keepalives_are_unwrapped() {
    let mut b = vec![b'w'];
    b.extend_from_slice(&5u64.to_be_bytes());
    b.extend_from_slice(&9u64.to_be_bytes());
    b.extend_from_slice(&0u64.to_be_bytes());
    b.extend_from_slice(b"data");
    match recv_wal(b'd', &b) {
        Some(Ok(WalMsg::XLogData { start_lsn, end_lsn, wal_data })) => {
            assert_eq!((start_lsn, end_lsn), (Lsn(5), Lsn(9)));
            assert_eq!(wal_data, b"data");
        }
        _ => panic!("log data"),
    }
    let mut k = vec![b'k'];
    k.extend_from_slice(&7u64.to_be_bytes());
    k.extend_from_slice(&0u64.to_be_bytes());
    k.push(1);
    match recv_wal(b'd', &k) {
        Some(Ok(WalMsg::Keepalive { server_lsn, reply_needed })) => {
            assert_eq!(server_lsn, Lsn(7));
            assert!(reply_needed);
        }
        _ => panic!("a keepalive"),
    }
    assert!(matches!(recv_wal(b'd', b"w123"), Some(Err(_))));
    assert!(matches!(recv_wal(b'E', b"Mno\0\0"), Some(Err(_))));
}

#[test]
fn status_tells_positions_and_time() {
    assert_eq!(pg_clock(946_684_800, 5), 5);
    assert_eq!(pg_clock(946_684_801, 0), 1_000_000);
    assert_eq!(pg_clock(0, 9), 9);
    let s = status_update(Lsn(1), Lsn(2), 3);
    assert_eq!(s.len(), 34);
    assert_eq!(s[0], b'r');
    assert_eq!(&s[1..9], &1u64.to_be_bytes());
    assert_eq!(&s[9..17], &2u64.to_be_bytes());
    assert_eq!(&s[25..33], &3u64.to_be_bytes());
}

#[test]
fn only_the_code_tells_of_a_slot() {
    // A message that happens to hold the number is no sign of the slot.
    let mut s = SlotRequest::new();
    assert!(matches!(
        s.on_message(b'E', b"SERROR\0C42501\0Mpermission denied for slot 42710\0\0"),
        SlotStep::Fail(_)
    ));
    // Nor are its usual words without the code.
    let mut s = SlotRequest::new();
    assert!(matches!(
        s.on_message(b'E', b"SERROR\0C53400\0Mreplication slot already exists\0\0"),
        SlotStep::Fail(_)
    ));
    // The code alone is enough.
    let mut s = SlotRequest::new();
    assert!(matches!(s.on_message(b'E', b"SERROR\0C42710\0\0"), SlotStep::Read));
    assert!(matches!(s.on_message(b'Z', b"I"), SlotStep::Done(None)));
}
