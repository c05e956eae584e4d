//! The first process: network, metadata, swap.
use beyond_pg::http::{http_get_request, parse_http_response, parse_http_url};
use beyond_pg::init::{
    essential_mounts, find_metadata, http_body, http_status, ipv6_addr_args, ipv6_route_args, metadata_request,
    mmds_route_args, password_metadata, read_cmdline_gateway, read_cmdline_ipv6,
    read_cmdline_ipv6_ext, read_metadata, read_proc_meminfo_kib, read_token, resolv_conf,
    zram_algorithm, zram_in_use, zram_size, TOKEN_REQUEST,
};
use beyond_pg::mmds::{
    after_failed_load, config_from, config_of, find_settings, load_step, LoadFailure, LoadStep,
    MmdsConfig, MmdsError, PgTier, MAX_ATTEMPTS,
};

const CMDLINE: &str = "console=ttyS0 ip=172.16.0.2::172.16.0.1:255.255.255.0::eth0:off ipv6=fd00::2/64@fd00::1 ipv6_ext=2001:db8::5/128\n";

#[test]
fn command_line_names_addresses() {
    let c = read_cmdline_ipv6(CMDLINE).unwrap();
    assert_eq!((c.addr.as_str(), c.prefix_len, c.gateway.as_str()), ("fd00::2", 64, "fd00::1"));
    assert_eq!(read_cmdline_ipv6_ext(CMDLINE), Some("2001:db8::5".to_string()));
    assert_eq!(read_cmdline_gateway(CMDLINE), Some("172.16.0.1".to_string()));

    assert!(read_cmdline_ipv6("ipv6=fd00::2/64").is_none());
    assert!(read_cmdline_ipv6("ipv6=fd00::2@fd00::1").is_none());
    assert!(read_cmdline_ipv6("ipv6=fd00::2/64@").is_none());
    assert!(read_cmdline_ipv6("ipv6=fd00::2/256@fd00::1").is_none());
    assert!(read_cmdline_ipv6("quiet").is_none());
    assert_eq!(read_cmdline_ipv6_ext("ipv6_ext=/128"), None);
    assert_eq!(read_cmdline_ipv6_ext("ipv6_ext=a"), None);
    assert_eq!(read_cmdline_gateway("ip=dhcp"), None);
    assert_eq!(read_cmdline_gateway("ip=1.2.3.4:::"), None);
}

#[test]
fn nameservers_prefer_the_newer_gateway() {
    assert_eq!(resolv_conf(CMDLINE), "nameserver fd00::1\nnameserver 8.8.8.8\n");
    assert_eq!(
        resolv_conf("ip=172.16.0.2::172.16.0.1:255.255.255.0"),
        "nameserver 172.16.0.1\nnameserver 8.8.8.8\n"
    );
    assert_eq!(resolv_conf(""), "nameserver 8.8.8.8\n");
}

#[test]
fn network_commands() {
    assert_eq!(mmds_route_args(), vec!["route", "add", "169.254.169.254", "dev", "eth0"]);
    assert_eq!(
        ipv6_addr_args("fd00::2", 64),
        vec!["-6", "addr", "add", "fd00::2/64", "dev", "eth0"]
    );
    assert_eq!(
        ipv6_route_args("fd00::1"),
        vec!["-6", "route", "add", "default", "via", "fd00::1", "dev", "eth0"]
    );
}

#[test]
fn tokens_are_cleaned() {
    let ok = b"HTTP/1.1 200 OK\r\nX: y\r\n\r\n to\r\nken \n";
    assert_eq!(http_status(ok), Some(200));
    assert_eq!(http_body(ok), Some(" to\r\nken \n".to_string()));
    assert_eq!(read_token(ok), Some("token".to_string()));
    assert_eq!(read_token(b"HTTP/1.1 404 Not Found\r\n\r\nx"), None);
    assert_eq!(read_token(b"HTTP/1.1 200 OK\r\n\r\n \r\n"), None);
    assert_eq!(read_token(b"HTTP/1.1 200 OK\r\n\r\n\xff"), None);
    assert_eq!(http_status(b"nonsense"), None);
    assert_eq!(http_status(b"HTTP/1.1 99999 x"), None);
    assert!(TOKEN_REQUEST.starts_with("PUT /latest/api/token HTTP/1.1\r\n"));
    assert!(TOKEN_REQUEST.ends_with("\r\n\r\n"));
}

#[test]
fn metadata_requests_carry_the_token() {
    assert_eq!(
        metadata_request(Some("t")),
        "GET / HTTP/1.1\r\nHost: 169.254.169.254\r\nAccept: application/json\r\nX-metadata-token: t\r\nConnection: close\r\n\r\n"
    );
    assert!(!metadata_request(None).contains("X-metadata-token"));
}

#[test]
fn metadata_is_found_or_not() {
    let with = |body: &str| format!("HTTP/1.1 200 OK\r\n\r\n{body}").into_bytes();
    assert_eq!(find_metadata(&with("{\"a\":1}")), Ok(Some("{\"a\":1}".to_string())));
    assert_eq!(find_metadata(&with("")), Ok(None));
    assert_eq!(find_metadata(&with(" latest/\n")), Ok(None));
    assert_eq!(
        find_metadata(b"HTTP/1.1 503 x\r\n\r\n"),
        Err("MMDS returned HTTP 503".to_string())
    );
    assert_eq!(
        find_metadata(b""),
        Err("MMDS returned malformed HTTP response".to_string())
    );
    assert_eq!(read_metadata(&with("{\"a\":1}")), Ok(Some("{\n  \"a\": 1\n}".to_string())));
    assert!(read_metadata(&with("{")).is_err());
    assert_eq!(read_metadata(&with("")), Ok(None));
}

#[test]
fn password_alone_makes_metadata() {
    let text = password_metadata("a\"b\n");
    let v: serde_json::Value = serde_json::from_str(&text).unwrap();
    assert_eq!(
        v.pointer("/latest/meta-data/POSTGRES_PASSWORD").and_then(|p| p.as_str()),
        Some("a\"b\n")
    );
    assert_eq!(serde_json::to_string_pretty(&v).unwrap(), text);
}

#[test]
fn swap_is_a_tenth_of_memory() {
    assert_eq!(zram_size(Some(1000)), 102_400);
    assert_eq!(zram_size(Some(64 * 1024 * 1024)), 256 * 1024 * 1024);
    assert_eq!(zram_size(None), 256 * 1024 * 1024);
    assert_eq!(read_proc_meminfo_kib("MemTotal: 5 kB\nMemFree: 3 kB\n", "MemFree"), Some(3));
    assert_eq!(read_proc_meminfo_kib("MemTotal: x kB\n", "MemTotal"), None);
    assert_eq!(read_proc_meminfo_kib("MemTotal:\n", "MemTotal"), None);
    assert!(zram_in_use("Filename\n/dev/zram0 partition 1 0 100\n"));
    assert!(!zram_in_use("Filename\n"));
    assert_eq!(zram_algorithm("[lzo] lz4 zstd"), Some("lz4"));
    assert_eq!(zram_algorithm("[lzo] zstd"), None);
}

#[test]
fn file_systems_are_mounted_in_order() {
    let mounts = essential_mounts();
    let targets: Vec<&str> = mounts.iter().map(|m| m.target).collect();
    assert_eq!(
        targets,
        vec!["/proc", "/sys", "/sys/fs/cgroup", "/dev", "/dev/pts", "/dev/shm", "/run"]
    );
    let required: Vec<bool> = mounts.iter().map(|m| m.required).collect();
    assert_eq!(required, vec![true, false, false, false, false, false, false]);
    assert!(mounts.iter().all(|m| m.nosuid));
    let shm = &mounts[5];
    assert_eq!((shm.source, shm.fstype, shm.noexec, shm.nodev), ("tmpfs", "tmpfs", false, true));
    let dev = &mounts[3];
    assert_eq!((dev.fstype, dev.noexec, dev.nodev), ("devtmpfs", false, false));
    let pts = &mounts[4];
    assert_eq!((pts.fstype, pts.noexec, pts.nodev), ("devpts", true, false));
}

#[test]
fn segments_are_fetched_over_http() {
    assert_eq!(
        parse_http_url("http://h:80/a/b"),
        Ok(("h:80".to_string(), "/a/b".to_string()))
    );
    assert_eq!(parse_http_url("http://h:80"), Ok(("h:80".to_string(), "/".to_string())));
    assert_eq!(
        parse_http_url("https://h"),
        Err("only http:// URLs are supported: https://h".to_string())
    );
    assert_eq!(
        http_get_request("/a", "h:80"),
        "GET /a HTTP/1.1\r\nHost: h:80\r\nConnection: close\r\n\r\n"
    );
    assert_eq!(parse_http_response(b"HTTP/1.1 204 x\r\nA: b\r\n\r\n\x00\xff"), Ok(vec![0, 255]));
    assert_eq!(
        parse_http_response(b"HTTP/1.1 404 Not Found\r\n\r\nx"),
        Err("HTTP HTTP/1.1 404 Not Found".to_string())
    );
    assert_eq!(
        parse_http_response(b"HTTP/1.1 200 OK\r\n"),
        Err("response missing header terminator".to_string())
    );
    assert!(parse_http_response(b"\xff\r\n\r\n").unwrap_err().starts_with("non-UTF-8 headers: "));
}

#[test]
fn loading_gives_up_after_the_last_try() {
    let f = LoadFailure::Read("gone".to_string());
    for attempt in 1..MAX_ATTEMPTS {
        assert!(after_failed_load(attempt, &f).is_none());
    }
    match after_failed_load(MAX_ATTEMPTS, &f) {
        Some(e) => assert_eq!(e.to_string(), "MMDS unavailable: read error: gone"),
        None => panic!("the last try"),
    }
    match after_failed_load(MAX_ATTEMPTS, &LoadFailure::Parse("x".to_string())) {
        Some(MmdsError::Unavailable(m)) => assert_eq!(m, "JSON parse error: x"),
        other => panic!("{other:?}"),
    }
}

#[test]
fn configuration_is_complete_or_not() {
    let mut cfg = MmdsConfig {
        pg_tier: PgTier::Primary,
        ephemeral: false,
        postgres_password: "p".into(),
        postgres_database: "postgres".into(),
        wal_sink: None,
        cdc_enabled: false,
        recovery_target_time: None,
        primary_conninfo: None,
        replication_password: None,
        ram_bytes: 1,
        vcpus: 1,
    };
    let complaint = |cfg: &MmdsConfig| match cfg.check() {
        Ok(()) => String::new(),
        Err(e) => e.to_string(),
    };
    assert_eq!(complaint(&cfg), "");
    cfg.recovery_target_time = Some("t".into());
    assert_eq!(
        complaint(&cfg),
        "MMDS invalid: recovery to a point in time needs BEYOND_PG_WAL_SINK"
    );
    cfg.wal_sink = Some("s".into());
    assert_eq!(complaint(&cfg), "");
    cfg.ephemeral = true;
    assert_eq!(complaint(&cfg), "");
    cfg.pg_tier = PgTier::Replica;
    assert_eq!(complaint(&cfg), "MMDS invalid: a replica needs BEYOND_PG_PRIMARY_CONNINFO");
    cfg.primary_conninfo = Some("host=p".into());
    assert_eq!(complaint(&cfg), "MMDS invalid: a replica cannot run on an ephemeral volume");
    cfg.ephemeral = false;
    assert_eq!(complaint(&cfg), "");
}

fn document(settings: &[(&str, &str)]) -> String {
    let entries: Vec<String> =
        settings.iter().map(|(k, v)| format!("\"{k}\": \"{v}\"")).collect();
    format!("{{\"latest\": {{\"meta-data\": {{{}}}}}}}", entries.join(", "))
}

fn configured(settings: &[(&str, &str)]) -> Result<MmdsConfig, String> {
    let mut all = vec![("POSTGRES_PASSWORD", "testpassword123")];
    all.extend(settings);
    config_from(&document(&all), Some(1 << 30), 2).map_err(|e| e.to_string())
}

#[test]
fn settings_make_the_configuration() {
    let cfg = configured(&[]).unwrap();
    assert_eq!(cfg.pg_tier, PgTier::Primary);
    assert_eq!(cfg.postgres_password, "testpassword123");
    assert_eq!(cfg.postgres_database, "postgres");
    assert!(!cfg.ephemeral && !cfg.cdc_enabled);
    assert_eq!((cfg.ram_bytes, cfg.vcpus), (1 << 30, 2));
    assert_eq!(cfg.wal_sink, None);
    assert_eq!(cfg.recovery_target_time, None);

    let cfg = configured(&[
        ("BEYOND_PG_TIER", "single"),
        ("POSTGRES_DATABASE", "app"),
        ("BEYOND_VOLUME_EPHEMERAL", "true"),
        ("BEYOND_PG_CDC_ENABLED", "1"),
        ("BEYOND_PG_MEMORY_MB", "512"),
        ("BEYOND_PG_WAL_SINK", "http://10.0.0.5:9000"),
        ("BEYOND_PG_PITR_TARGET", "2026-05-14 03:00:00"),
        ("BEYOND_PG_REPLICATION_PASSWORD", "r"),
    ])
    .unwrap();
    assert_eq!(cfg.pg_tier, PgTier::Single);
    assert_eq!(cfg.postgres_database, "app");
    assert!(cfg.ephemeral && cfg.cdc_enabled);
    assert_eq!(cfg.ram_bytes, 512 << 20);
    assert_eq!(cfg.wal_sink.as_deref(), Some("http://10.0.0.5:9000"));
    assert_eq!(cfg.recovery_target_time.as_deref(), Some("2026-05-14 03:00:00"));
    assert_eq!(cfg.replication_password.as_deref(), Some("r"));

    let cfg = configured(&[
        ("BEYOND_PG_TIER", "replica"),
        ("BEYOND_PG_PRIMARY_CONNINFO", "host=10.0.0.1 port=5432 user=replicator"),
        ("BEYOND_VOLUME_EPHEMERAL", "0"),
    ])
    .unwrap();
    assert_eq!(cfg.pg_tier, PgTier::Replica);
    assert!(!cfg.ephemeral);
    assert_eq!(
        cfg.primary_conninfo.as_deref(),
        Some("host=10.0.0.1 port=5432 user=replicator")
    );
}

#[test]
fn recovery_restores_from_the_archive_without_a_sink() {
    let archive = ("BEYOND_PG_ARCHIVE_TARGET", "s3://test-bucket/wal");
    let time = ("BEYOND_PG_RECOVERY_TARGET_TIME", "2026-05-14 03:00:00");
    let cfg = configured(&[archive, time]).unwrap();
    assert_eq!(cfg.wal_sink.as_deref(), Some("s3://test-bucket/wal"));
    assert_eq!(cfg.recovery_target_time.as_deref(), Some("2026-05-14 03:00:00"));
    // An archive alone is no sink.
    assert_eq!(configured(&[archive]).unwrap().wal_sink, None);
    let sink = ("BEYOND_PG_WAL_SINK", "http://10.0.0.5:9000");
    let cfg = configured(&[archive, time, sink]).unwrap();
    assert_eq!(cfg.wal_sink.as_deref(), Some("http://10.0.0.5:9000"));
}

#[test]
fn unworkable_settings_are_refused() {
    let complaint = |settings: &[(&str, &str)]| configured(settings).unwrap_err();
    assert_eq!(
        complaint(&[("BEYOND_PG_TIER", "king")]),
        "MMDS invalid: unknown BEYOND_PG_TIER: king"
    );
    assert_eq!(
        complaint(&[("BEYOND_PG_TIER", "replica")]),
        "MMDS invalid: a replica needs BEYOND_PG_PRIMARY_CONNINFO"
    );
    let replica = [
        ("BEYOND_PG_TIER", "replica"),
        ("BEYOND_PG_PRIMARY_CONNINFO", "host=p"),
        ("BEYOND_VOLUME_EPHEMERAL", "1"),
    ];
    assert_eq!(
        complaint(&replica),
        "MMDS invalid: a replica cannot run on an ephemeral volume"
    );
    assert_eq!(
        complaint(&[("BEYOND_PG_RECOVERY_TARGET_TIME", "t")]),
        "MMDS invalid: recovery to a point in time needs BEYOND_PG_WAL_SINK"
    );
    for bad in ["x", "-1", "17592186044416", "18446744073709551616"] {
        assert_eq!(
            complaint(&[("BEYOND_PG_MEMORY_MB", bad)]),
            format!("MMDS invalid: bad BEYOND_PG_MEMORY_MB: {bad}")
        );
    }
    let missing = |doc: &str| match config_from(doc, Some(1), 1) {
        Err(e) => e.to_string(),
        Ok(_) => panic!("no password"),
    };
    assert_eq!(missing("{}"), "MMDS invalid: POSTGRES_PASSWORD is missing");
    assert_eq!(missing("no document"), "MMDS invalid: POSTGRES_PASSWORD is missing");
    assert_eq!(
        missing(&document(&[("POSTGRES_PASSWORD", "")])),
        "MMDS invalid: POSTGRES_PASSWORD is missing"
    );
    let settings = find_settings(&document(&[("POSTGRES_PASSWORD", "p")]));
    match config_of(settings, None, 1) {
        Err(e) => assert_eq!(
            e.to_string(),
            "MMDS unavailable: cannot read the machine's memory"
        ),
        Ok(_) => panic!("no memory"),
    }
}

#[test]
fn metadata_are_loaded_in_a_few_tries() {
    match load_step(1, Ok("{\"a\":1}".to_string())) {
        LoadStep::Loaded(t) => assert_eq!(t, "{\"a\":1}"),
        other => panic!("{other:?}"),
    }
    assert!(matches!(load_step(1, Ok("{".to_string())), LoadStep::Again));
    assert!(matches!(load_step(4, Err("gone".to_string())), LoadStep::Again));
    match load_step(MAX_ATTEMPTS, Err("gone".to_string())) {
        LoadStep::Fail(e) => assert_eq!(e.to_string(), "MMDS unavailable: read error: gone"),
        other => panic!("{other:?}"),
    }
    match load_step(MAX_ATTEMPTS, Ok("{".to_string())) {
        LoadStep::Fail(e) => {
            assert!(e.to_string().starts_with("MMDS unavailable: JSON parse error: EOF"))
        }
        other => panic!("{other:?}"),
    }
}
