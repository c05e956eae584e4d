//! Generated configuration.
use beyond_pg::boot::nr_hugepages;
use beyond_pg::config::{
    beyond_conf, beyond_conf_path, conf_d_dir, durability_conf_path, filter_preload_line,
    filter_shared_preload_libraries, library_path, memory_conf_path, pgb_peer_socket_dir,
    pgbouncer_ini, pgbouncer_ini_path, pgbouncer_max_workers, pgbouncer_pool_size,
    pgbouncer_worker_ini, pitr_conf, pitr_conf_path, preload_candidates, preload_libraries,
    replica_conf, replica_conf_path, shared_buffers_mb, sink_recovery_conf, tls_conf,
    tls_conf_path, tuning_conf_adaptive, tuning_conf_boot, tuning_conf_path, wal_sink_conf,
    wal_sink_conf_path, BEYOND_CONF, PGBOUNCER_INI_BASE, PKGLIBDIR, PRELOAD_KEY,
};
use beyond_pg::tls::{TlsConfig, TlsSource};

fn names(items: &[&str]) -> Vec<String> {
    items.iter().map(|s| s.to_string()).collect()
}

fn platform_tls() -> TlsConfig {
    TlsConfig {
        source: TlsSource::Platform,
        cert: "/run/beyond/tls/cert.pem".to_string(),
        key: "/run/beyond/tls/key.pem".to_string(),
        ca: Some("/run/beyond/tls/ca.pem".to_string()),
    }
}

fn self_signed_tls() -> TlsConfig {
    TlsConfig {
        source: TlsSource::SelfSigned,
        cert: "/var/lib/postgresql/18/main/beyond/server.crt".to_string(),
        key: "/var/lib/postgresql/18/main/beyond/server.key".to_string(),
        ca: None,
    }
}

#[test]
fn filter_preload_keeps_only_installed_libs() {
    let installed = names(&["pg_stat_statements", "auto_explain"]);
    let conf = "shared_preload_libraries = 'pg_stat_statements,auto_explain,pg_cron,beyond_auth,beyond_queue'\nfoo = 1\n";
    let out = filter_shared_preload_libraries(conf, &installed);
    assert!(
        out.contains("shared_preload_libraries = 'pg_stat_statements,auto_explain'"),
        "missing libs should be dropped: {out}"
    );
    assert!(!out.contains("pg_cron"), "pg_cron not installed: {out}");
    assert!(!out.contains("beyond_auth"), "beyond_auth not installed: {out}");
    assert!(!out.contains("beyond_queue"), "beyond_queue not installed: {out}");
    assert!(out.contains("foo = 1"));
    assert_eq!(
        out,
        "shared_preload_libraries = 'pg_stat_statements,auto_explain'\nfoo = 1\n"
    );
}

#[test]
fn filter_preload_all_present_is_unchanged() {
    let installed = names(&["pg_stat_statements", "auto_explain", "pg_cron"]);
    let conf = "shared_preload_libraries = 'pg_stat_statements,auto_explain,pg_cron'\n";
    let out = filter_shared_preload_libraries(conf, &installed);
    assert!(out.contains("shared_preload_libraries = 'pg_stat_statements,auto_explain,pg_cron'"));
}

#[test]
fn filter_preload_all_missing_emits_empty_value() {
    let conf = "shared_preload_libraries = 'pg_cron,beyond_auth'\n";
    let out = filter_shared_preload_libraries(conf, &names(&[]));
    assert!(
        out.contains("shared_preload_libraries = ''"),
        "all missing → empty value (key retained): {out}"
    );
}

#[test]
fn filter_preload_ignores_comments_and_other_keys() {
    let conf = "# shared_preload_libraries = 'pg_cron'\nshared_preload_libraries.foo = 'bar'\n";
    let out = filter_shared_preload_libraries(conf, &names(&[]));
    assert!(out.contains("# shared_preload_libraries = 'pg_cron'"));
    assert!(out.contains("shared_preload_libraries.foo = 'bar'"));
}

#[test]
fn filter_preload_handles_real_embedded_conf() {
    let installed = names(&["pg_stat_statements", "auto_explain"]);
    let out = filter_shared_preload_libraries(BEYOND_CONF, &installed);
    assert!(out.contains("shared_preload_libraries = 'pg_stat_statements,auto_explain'"));
    assert!(!out.contains("'pg_stat_statements,auto_explain,pg_cron"));
    assert_eq!(out, beyond_conf(&installed));
    assert_eq!(preload_libraries(&installed), "pg_stat_statements,auto_explain");
}

#[test]
fn preload_line_is_told_from_other_lines() {
    let installed = names(&["a"]);
    assert_eq!(
        filter_preload_line("  key = ' a , b '", "key", &installed),
        Some("key = 'a'".to_string())
    );
    assert_eq!(filter_preload_line("key = ' a , b ' # note", "key", &installed), None);
    assert_eq!(filter_preload_line("#key = 'a,b'", "#key", &installed), None);
    assert_eq!(
        filter_preload_line("key = 'a,b'", "key", &installed),
        Some("key = 'a'".to_string())
    );
    assert_eq!(filter_preload_line("other = 'a,b'", "key", &installed), None);
    assert_eq!(filter_preload_line("# key = 'a,b'", "key", &installed), None);
    assert_eq!(PRELOAD_KEY, "shared_preload_libraries");
}

#[test]
fn preload_candidates_are_named_in_the_conf() {
    let found = preload_candidates("x = 1\nshared_preload_libraries = 'b,a'\n");
    assert_eq!(found, names(&["b", "a"]));
    assert_eq!(
        library_path(PKGLIBDIR, "pg_cron"),
        "/usr/lib/postgresql/18/lib/pg_cron.so"
    );
}

#[test]
fn tls_conf_platform_includes_ca() {
    let out = tls_conf(&platform_tls());
    assert!(out.contains("ssl_cert_file = '/run/beyond/tls/cert.pem'"));
    assert!(out.contains("ssl_key_file = '/run/beyond/tls/key.pem'"));
    assert!(out.contains("ssl_ca_file = '/run/beyond/tls/ca.pem'"));
}

#[test]
fn tls_conf_self_signed_omits_ca() {
    let out = tls_conf(&self_signed_tls());
    assert!(out.contains("ssl_cert_file"));
    assert!(!out.contains("ssl_ca_file"), "self-signed has no CA: {out}");
}

#[test]
fn pgbouncer_ini_appends_tls_keys() {
    let out = pgbouncer_ini(&platform_tls(), 8 * 1024 * 1024 * 1024, 4);
    assert!(
        out.starts_with(PGBOUNCER_INI_BASE),
        "must preserve base config"
    );
    assert!(out.contains("default_pool_size = 16"));
    assert!(out.contains("max_client_conn = "));
    assert!(out.contains("client_tls_sslmode = allow"));
    assert!(out.contains("client_tls_cert_file = /run/beyond/tls/cert.pem"));
    assert!(out.contains("client_tls_key_file = /run/beyond/tls/key.pem"));
    assert!(out.contains("client_tls_ca_file = /run/beyond/tls/ca.pem"));
}

#[test]
fn pgbouncer_ini_self_signed_points_ca_at_cert() {
    let out = pgbouncer_ini(&self_signed_tls(), 8 * 1024 * 1024 * 1024, 4);
    assert!(out.contains("client_tls_sslmode = allow"));
    assert!(out.contains("client_tls_cert_file"));
    assert!(
        out.contains("client_tls_ca_file = /var/lib/postgresql/18/main/beyond/server.crt"),
        "self-signed CA points at the cert itself: {out}"
    );
}

#[test]
fn pgbouncer_scales_with_box() {
    assert_eq!(pgbouncer_max_workers(2), 1);
    assert_eq!(pgbouncer_max_workers(8), 2);
    assert_eq!(pgbouncer_max_workers(16), 4);
    assert_eq!(pgbouncer_max_workers(64), 8);
    assert_eq!(pgbouncer_max_workers(256), 8);

    let tls = TlsConfig {
        source: TlsSource::SelfSigned,
        cert: "/c".to_string(),
        key: "/k".to_string(),
        ca: None,
    };
    let small = pgbouncer_ini(&tls, 4 * 1024 * 1024 * 1024, 4);
    assert!(small.contains("so_reuseport = 1"));
    assert!(small.contains("default_pool_size = 16"));
    assert!(
        small.contains("unix_socket_dir ="),
        "needs empty unix_socket_dir: {small}"
    );
    let mid = pgbouncer_ini(&tls, 32u64 * 1024 * 1024 * 1024, 16);
    assert!(
        mid.contains("default_pool_size = 48"),
        "16 vCPU * 3 = full 48: {mid}"
    );
    let big = pgbouncer_ini(&tls, 256u64 * 1024 * 1024 * 1024, 64);
    assert!(big.contains("so_reuseport = 1"));
    assert!(
        big.contains("default_pool_size = 192"),
        "64 vCPU * 3 = full 192 per worker: {big}"
    );
    let tuning = tuning_conf_boot(256u64 * 1024 * 1024 * 1024, 64);
    assert!(tuning.contains("max_connections = 330"));
}

#[test]
fn pooler_sizes_follow_the_machine() {
    assert_eq!(pgbouncer_pool_size(4), 16);
    assert_eq!(pgbouncer_pool_size(16), 48);
    assert_eq!(pgbouncer_pool_size(64), 192);
    assert!(pgbouncer_pool_size(8) <= pgbouncer_pool_size(9));
    assert!(pgbouncer_max_workers(8) <= pgbouncer_max_workers(9));
}

#[test]
fn workers_share_one_map_of_peers() {
    let tls = self_signed_tls();
    let two = pgbouncer_worker_ini(&tls, 8 * 1024 * 1024 * 1024, 8, 2);
    assert!(two.contains("peer_id = 2\n"));
    assert!(two.ends_with(
        "[peers]\n1 = host=/var/run/pgbouncer/peer-1\n2 = host=/var/run/pgbouncer/peer-2\n"
    ));
    let alone = pgbouncer_worker_ini(&tls, 8 * 1024 * 1024 * 1024, 4, 1);
    assert!(!alone.contains("[peers]"));
    assert_eq!(alone, pgbouncer_ini(&tls, 8 * 1024 * 1024 * 1024, 4));
    assert_eq!(pgbouncer_ini_path(1), "/etc/pgbouncer/pgbouncer.ini");
    assert_eq!(pgbouncer_ini_path(3), "/etc/pgbouncer/pgbouncer-3.ini");
    assert_eq!(pgb_peer_socket_dir(3), "/var/run/pgbouncer/peer-3");
}

#[test]
fn replica_conf_no_wal_sink() {
    let conf = replica_conf("host=10.0.0.1 port=5433 user=replicator", None);
    assert!(
        conf.contains("primary_conninfo = 'host=10.0.0.1 port=5433 user=replicator'"),
        "primary_conninfo missing or wrong: {conf}"
    );
    assert!(
        conf.contains("recovery_target_timeline = 'latest'"),
        "recovery_target_timeline missing: {conf}"
    );
    assert!(
        !conf.contains("restore_command"),
        "restore_command should be absent when wal_sink is None: {conf}"
    );
}

#[test]
fn replica_conf_with_wal_sink() {
    let conf = replica_conf(
        "host=10.0.0.1 user=replicator",
        Some("http://10.0.0.5:9000"),
    );
    assert!(
        conf.contains("restore_command = 'curl -f -s http://10.0.0.5:9000/%f -o %p'"),
        "restore_command wrong or missing: {conf}"
    );
}

#[test]
fn replica_conf_escapes_single_quotes() {
    let conf = replica_conf("host=10.0.0.1 password=it's'secret", None);
    assert!(
        conf.contains("password=it''s''secret"),
        "single quotes not escaped: {conf}"
    );
    assert!(
        !conf.contains("password=it's"),
        "unescaped single quote present: {conf}"
    );
}

#[test]
fn replica_conf_path_is_04() {
    assert!(
        replica_conf_path().ends_with("/conf.d/04-replica.conf"),
        "unexpected path: {}",
        replica_conf_path()
    );
}

#[test]
fn pitr_conf_restore_command_only() {
    let conf = pitr_conf("s3://bucket/prefix", None);
    assert!(
        conf.contains("restore_command = 'aws s3 cp s3://bucket/prefix/%f %p --no-progress'"),
        "restore_command wrong or missing: {conf}"
    );
    assert!(
        !conf.contains("recovery_target_time"),
        "recovery_target_time should be absent when not set: {conf}"
    );
}

#[test]
fn pitr_conf_with_recovery_target() {
    let conf = pitr_conf("s3://bucket/prefix", Some("2026-05-14 03:00:00"));
    assert!(
        conf.contains("restore_command = 'aws s3 cp s3://bucket/prefix/%f %p --no-progress'"),
        "restore_command missing: {conf}"
    );
    assert!(
        conf.contains("recovery_target_time = '2026-05-14 03:00:00'"),
        "recovery_target_time wrong: {conf}"
    );
    assert!(
        conf.contains("recovery_target_action = promote"),
        "recovery_target_action missing: {conf}"
    );
    assert!(
        conf.contains("recovery_target_inclusive = true"),
        "recovery_target_inclusive missing: {conf}"
    );
}

#[test]
fn pitr_conf_strips_trailing_slash() {
    let conf = pitr_conf("s3://bucket/prefix/", None);
    assert!(
        conf.contains("s3://bucket/prefix/%f"),
        "trailing slash not stripped: {conf}"
    );
    assert!(!conf.contains("prefix//%f"), "double slash present: {conf}");
    assert_eq!(conf, pitr_conf("s3://bucket/prefix", None));
}

#[test]
fn pitr_conf_escapes_single_quotes_in_target_time() {
    let conf = pitr_conf("s3://b/p", Some("2026-05-14 03:00:00.000+00''00"));
    assert!(
        conf.contains("2026-05-14 03:00:00.000+00''''00"),
        "single quotes not escaped: {conf}"
    );
}

#[test]
fn pitr_conf_path_is_05() {
    assert!(
        pitr_conf_path().ends_with("/conf.d/05-pitr.conf"),
        "unexpected path: {}",
        pitr_conf_path()
    );
}

#[test]
fn sink_recovery_fetches_over_http() {
    let conf = sink_recovery_conf("http://10.0.0.5:9000/", Some("2026-05-14 03:00:00"));
    assert!(conf.contains("restore_command = 'curl -f -s http://10.0.0.5:9000/%f -o %p'\n"));
    assert!(conf.contains("recovery_target_time = '2026-05-14 03:00:00'\n"));
}

#[test]
fn generated_files_have_their_places() {
    let base = "/var/lib/postgresql/18/main";
    assert_eq!(conf_d_dir(), format!("{base}/conf.d"));
    assert_eq!(beyond_conf_path(), format!("{base}/postgresql.conf"));
    assert_eq!(tuning_conf_path(), format!("{base}/conf.d/01-tuning.conf"));
    assert_eq!(memory_conf_path(), format!("{base}/conf.d/02-memory.conf"));
    assert_eq!(
        durability_conf_path(),
        format!("{base}/conf.d/03-durability.conf")
    );
    assert_eq!(wal_sink_conf_path(), format!("{base}/conf.d/03-wal-sink.conf"));
    assert_eq!(tls_conf_path(), format!("{base}/conf.d/06-tls.conf"));
    assert!(wal_sink_conf().contains("synchronous_standby_names = 'wal_sink'\n"));
}

#[test]
fn tuning_follows_memory() {
    let gb = 1024u64 * 1024 * 1024;
    assert_eq!(shared_buffers_mb(4 * gb), 1024);
    assert!(tuning_conf_boot(4 * gb, 2).contains("shared_buffers = 1024MB"));
    let small = tuning_conf_adaptive(4 * gb, 2);
    let large = tuning_conf_adaptive(8 * gb, 2);
    assert!(small.contains("effective_cache_size = "));
    assert_ne!(small, large);
}

#[test]
fn hugepages_nr_calculation() {
    let ram = 4u64 * 1024 * 1024 * 1024;
    let sb = shared_buffers_mb(ram);
    assert_eq!(sb, 1024);
    assert_eq!(nr_hugepages(sb), 544);

    let ram = 512u64 * 1024 * 1024;
    let sb = shared_buffers_mb(ram);
    assert_eq!(sb, 128);
    assert_eq!(nr_hugepages(sb), 96);

    let ram = 16u64 * 1024 * 1024 * 1024;
    let sb = shared_buffers_mb(ram);
    assert_eq!(sb, 4096);
    assert_eq!(nr_hugepages(sb), 2080);
}

#[test]
fn pool_fits_the_server() {
    let gb = 1024u64 * 1024 * 1024;
    let connections = |ram: u64, vcpus: u32| -> u64 {
        let conf = tuning_conf_boot(ram, vcpus);
        let line = conf.lines().find_map(|l| l.strip_prefix("max_connections = "));
        line.and_then(|n| n.parse().ok()).expect("a number")
    };
    // Many processors and little memory: the pool and the reserve still fit.
    assert_eq!(pgbouncer_pool_size(64), 192);
    assert_eq!(connections(gb, 64), 202);
    assert_eq!(connections(gb, 1), 100);
    for vcpus in [0, 1, 2, 8, 30, 31, 64, 128, 4096] {
        for ram in [0, gb / 2, gb, 4 * gb, 64 * gb] {
            assert!(pgbouncer_pool_size(vcpus) + 10 <= connections(ram, vcpus));
        }
    }
}

fn keys(conf: &str) -> Vec<String> {
    conf.lines()
        .filter(|l| !l.trim().is_empty() && !l.trim_start().starts_with('#'))
        .filter_map(|l| l.split_once('='))
        .map(|(k, _)| k.trim().to_string())
        .collect()
}

#[test]
fn tuning_keys_are_fixed() {
    let gb = 1024u64 * 1024 * 1024;
    for (ram, vcpus) in [(0, 0), (gb, 1), (64 * gb, 96), (u64::MAX, u32::MAX)] {
        assert_eq!(
            keys(&tuning_conf_boot(ram, vcpus)),
            [
                "shared_buffers",
                "max_connections",
                "wal_buffers",
                "huge_pages",
                "max_slot_wal_keep_size",
                "max_worker_processes",
                "max_parallel_workers",
            ]
        );
        assert_eq!(
            keys(&tuning_conf_adaptive(ram, vcpus)),
            [
                "effective_cache_size",
                "maintenance_work_mem",
                "work_mem",
                "max_parallel_workers_per_gather",
                "max_parallel_maintenance_workers",
            ]
        );
    }
}

#[test]
fn pooler_sets_the_ca_once() {
    for (tls, ca) in [
        (platform_tls(), "/run/beyond/tls/ca.pem"),
        (self_signed_tls(), "/var/lib/postgresql/18/main/beyond/server.crt"),
    ] {
        let ini = pgbouncer_ini(&tls, 1 << 30, 4);
        assert!(ini.starts_with(PGBOUNCER_INI_BASE));
        assert_eq!(keys(&ini).iter().filter(|k| *k == "client_tls_ca_file").count(), 1);
        let last = format!("client_tls_ca_file = {ca}");
        assert_eq!(ini.lines().last(), Some(last.as_str()));
    }
}

#[test]
fn filtering_again_changes_nothing() {
    let installed = names(&["a", "c"]);
    let conf = "# x\n shared_preload_libraries = ' a, b ,c,'\r\n\nfoo = 1";
    let once = filter_shared_preload_libraries(conf, &installed);
    assert_eq!(once, "# x\nshared_preload_libraries = 'a,c'\n\nfoo = 1\n");
    assert_eq!(filter_shared_preload_libraries(&once, &installed), once);
    assert_eq!(once.lines().count(), conf.lines().count());
    let none = filter_shared_preload_libraries(conf, &names(&[]));
    assert_eq!(filter_shared_preload_libraries(&none, &names(&[])), none);
    // A carriage return of its own at the end of a line is taken off by the next reading.
    let odd = filter_shared_preload_libraries("x\r\r\n", &installed);
    assert_eq!(odd, "x\r\n");
    assert_eq!(filter_shared_preload_libraries(&odd, &installed), "x\n");
}
