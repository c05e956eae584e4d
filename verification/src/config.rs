//! The configuration files: what they say for a machine of a given size and a cluster of a given
//! kind, and where they stand.
//!
//! Tuning that needs a restart is written once at boot; tuning that a reload picks up is written
//! at boot and again whenever the visible memory changes.
//!
//! The fixed contents of `BEYOND_CONF`, `PG_HBA_CONF` and `PGBOUNCER_INI_BASE` are stand-ins: an
//! image is packaged with files of its own. The texts below hold what the rest of the library relies
//! on.
use crate::number::{decimal, push_decimal};
use crate::pg::PGDATA;
use crate::text::{
    after_prefix, chars_of, contains, copy_str, double_quotes, is_listed, join, join_path, lines, lines_of,
    listed, path_join, pieces, push_chars, push_doubled, push_joined, split, starts_with, strings,
    strip_prefix, text_of, texts, trim, trim_end_char, trim_start, trimmed, trimmed_end_char,
    trimmed_start,
};
use crate::tls::{TlsConfig, TlsFiles};
use vstd::prelude::*;
use vstd::slice::slice_subrange;

verus! {

// ---------------------------------------------------------------------------
// Fixed contents.
// ---------------------------------------------------------------------------
/// The primary configuration file, before libraries that are not installed are taken out. A
/// stand-in for the file that an image is packaged with.
pub const BEYOND_CONF: &'static str = "# Managed by beyond-pg. Do not edit — overwritten on every boot.
# Put overrides in conf.d/99-user.conf.

# Connections. Clients use the pooler on 5432; this is the direct port.
listen_addresses = 'localhost'
port = 5433
unix_socket_directories = '/var/run/postgresql'
hba_file = '/etc/postgresql/18/main/pg_hba.conf'
password_encryption = scram-sha-256

# TLS. conf.d/06-tls.conf names the certificate in use.
ssl = on
ssl_cert_file = '/var/lib/postgresql/18/main/beyond/server.crt'
ssl_key_file = '/var/lib/postgresql/18/main/beyond/server.key'

# Preloaded libraries. Those that are not installed are dropped at boot.
shared_preload_libraries = 'pg_stat_statements,auto_explain,pg_cron,beyond_auth,beyond_queue'

# Write-ahead log and replication.
wal_level = logical
max_wal_senders = 10
max_replication_slots = 10
hot_standby = on
archive_mode = on
archive_command = '/usr/local/bin/beyond-pg archive %p %f'

# Aggressive autovacuum: bloat control wins on durable volumes.
autovacuum_vacuum_scale_factor = 0.05
autovacuum_naptime = 10s

include_dir = 'conf.d'
";

/// Where the shared objects of extensions stand.
pub const PKGLIBDIR: &'static str = "/usr/lib/postgresql/18/lib";

/// Host-based authentication: the local superuser by operating system user, everyone else by
/// password. A stand-in for the file that an image is packaged with.
pub const PG_HBA_CONF: &'static str = "# Managed by beyond-pg. Do not edit — overwritten on every boot.
local   all             postgres                                peer
local   all             all                                     scram-sha-256
host    replication     postgres        127.0.0.1/32            trust
host    all             pgbouncer       127.0.0.1/32            trust
host    all             all             0.0.0.0/0               scram-sha-256
host    all             all             ::/0                    scram-sha-256
host    replication     replicator      0.0.0.0/0               scram-sha-256
host    replication     replicator      ::/0                    scram-sha-256
";

/// The fixed part of the pooler's configuration. The socket directory is empty so that several
/// workers share nothing but the port. A stand-in for the file that an image is packaged with.
pub const PGBOUNCER_INI_BASE: &'static str = "# Managed by beyond-pg. Do not edit — overwritten on every boot.
[databases]
* = host=127.0.0.1 port=5433

[pgbouncer]
listen_addr = *
listen_port = 5432
unix_socket_dir =
auth_type = scram-sha-256
auth_user = pgbouncer
auth_query = SELECT username, password FROM pgbouncer.get_auth($1)
pool_mode = transaction
server_tls_sslmode = disable
ignore_startup_parameters = extra_float_digits,options
";

/// Durability on a volume that is thrown away: faster commits, little vacuuming.
pub const DURABILITY_CONF_EPHEMERAL: &'static str = "# Generated by beyond-pg. Present only on ephemeral volumes.\n\
     # synchronous_commit=off gives 5-10x faster commits; ~10ms data-loss\n\
     # window on crash is irrelevant on a throwaway volume.\n\
     synchronous_commit = off\n\
     # Throttle autovacuum on ephemeral/fork volumes. Measured on PG18-on-GlideFS\n\
     # (bench/glidefs-pg): aggressive autovacuum on an idle fork wrote 306 MB of CoW\n\
     # divergence in 90s vs 0.1 MB throttled (~2240x). A throwaway volume is gone\n\
     # before bloat matters, but every vacuumed page is a new block GlideFS uploads.\n\
     # Wraparound protection still runs (autovacuum stays on). Durable primaries keep\n\
     # the aggressive default (00-beyond.conf) where bloat control wins.\n\
     autovacuum_vacuum_scale_factor = 0.4\n\
     autovacuum_naptime = 5min\n\
     autovacuum_vacuum_cost_delay = 20ms\n\
     autovacuum_vacuum_cost_limit = 200\n";

pub const PG_HBA_PATH: &'static str = "/etc/postgresql/18/main/pg_hba.conf";
pub const PGBOUNCER_INI_PATH: &'static str = "/etc/pgbouncer/pgbouncer.ini";
pub const SYSCTL_PATH: &'static str = "/etc/sysctl.d/99-postgres.conf";
pub const THP_PATH: &'static str = "/sys/kernel/mm/transparent_hugepage/enabled";

/// Kernel settings for a machine that runs nothing but the database.
pub const SYSCTL_CONF: &'static str = "\
# vm.swappiness: reduce kernel tendency to swap anonymous pages (e.g. work_mem)
# under moderate memory pressure. Value 10 avoids paging hot database memory
# while leaving the OOM killer a pressure valve.
# Ref: Red Hat PostgreSQL tuning guide; Percona \"Out of Memory Killer\" post
vm.swappiness = 10

# vm.overcommit_memory=2: kernel refuses allocations that exceed CommitLimit
# instead of killing processes after the fact. Postmaster survives; the failing
# client gets ENOMEM instead of a cluster restart.
# vm.overcommit_ratio=80: CommitLimit = (80% * RAM) + swap. Default 50 is too
# tight once shared_buffers (25% RAM) + workers are counted on a dedicated host.
# Ref: PostgreSQL docs §19.4; Cybertec \"Memory Overcommit and PostgreSQL\"
vm.overcommit_memory = 2
vm.overcommit_ratio = 80

# vm.dirty_*_bytes: fix-byte writeback thresholds instead of ratio-based defaults.
# On large-RAM hosts, dirty_background_ratio=10% allows multi-GB dirty backlogs
# before flush starts, causing multi-second I/O stalls timed to checkpoints.
# Tradeoff: ~11-14% TPS reduction and ~50-70% slower vacuum on write-heavy
# workloads — test on your storage before adjusting further.
# Ref: Greg Smith / EDB \"Tuning Linux for Low PostgreSQL Latency\";
#      PostgreSQL mailing list 2010-04-12 (id 4BC796EF.5030902@2ndquadrant.com)
vm.dirty_background_bytes = 67108864
vm.dirty_bytes = 536870912

# vm.min_free_kbytes: kernel page reserve for atomic allocations. Too low and
# the OOM killer fires even when memory is technically available.
# 128 MB is a safe floor for large-RAM hosts.
vm.min_free_kbytes = 131072

# kernel.sched_migration_cost_ns: time the CFS scheduler treats a process as
# \"cache hot\" after migration, resisting re-migration. Default 500µs is far too
# short under a large process table — the scheduler thrashes backends across
# cores, burning system CPU. 5 ms stabilises placement.
# Measured: 5x TPS improvement at 900 connections (20% → 70% sys CPU reversed).
# Ref: Shaun Thomas, pgsql-performance 2012-12-31 (id 50E4AAB1.9040902@optionshouse.com);
#      confirmed on LKML (lkml.iu.edu/hypermail/linux/kernel/1507.1/00767.html)
kernel.sched_migration_cost_ns = 5000000

# kernel.sched_autogroup_enabled: groups tasks by TTY for desktop responsiveness,
# which starves long-running server daemons of CPU time. No benefit on a
# headless VM; disabling gives a standalone ~30% TPS boost.
# Ref: same Shaun Thomas benchmark above
kernel.sched_autogroup_enabled = 0

# net.core.somaxconn: kernel listen-backlog cap for TCP sockets. PostgreSQL's
# own listen_backlog is silently clamped to this. PgBouncer absorbs most
# connection pressure, but raising this prevents drops during restart storms.
# Ref: PostgreSQL docs §19.3; Red Hat RHEL PostgreSQL tuning profile
net.core.somaxconn = 1024

# fs.aio-max-nr: system-wide cap on in-flight async I/O requests.
# Required for PostgreSQL 18+ io_method=io_uring; exhausting the default (65536)
# causes allocation failures under high concurrency with direct I/O.
# Ref: pganalyze \"PostgreSQL 18 Async I/O Explainer\"; Red Hat tuning profile
fs.aio-max-nr = 1048576

# net.ipv4.tcp_syn_retries: SYN retransmit attempts before giving up on a new
# connection. Default 6 (~127s total). Value 2 (~7s) cuts connection setup
# latency when a peer is unreachable — acceptable on a private overlay network
# where packet loss is rare and fast failure is preferred.
net.ipv4.tcp_syn_retries = 2
";

// ---------------------------------------------------------------------------
// Preloaded libraries.
// ---------------------------------------------------------------------------
/// The key of the line that names the preloaded libraries.
pub const PRELOAD_KEY: &'static str = "shared_preload_libraries";

/// `s` without the single quotes around it, if it has both.
pub open spec fn unquoted(s: Seq<char>) -> Option<Seq<char>> {
    if s.len() >= 2 && s[0] == '\'' && s.last() == '\'' {
        Some(s.subrange(1, s.len() - 1))
    } else {
        None
    }
}

/// The value that a line assigns to `key`, if it is such an assignment of a quoted value.
/// Comments are not, nor are longer keys.
pub open spec fn assigned_value(line: Seq<char>, key: Seq<char>) -> Option<Seq<char>> {
    if starts_with(trim_start(line), "#"@) {
        None
    } else {
        match strip_prefix(trim_start(line), key) {
            None => None,
            Some(rest) => match strip_prefix(trim_start(rest), "="@) {
                None => None,
                Some(value) => unquoted(trim(value)),
            },
        }
    }
}

/// The names in a comma-separated list, trimmed, without empty ones.
pub open spec fn list_items(parts: Seq<Seq<char>>) -> Seq<Seq<char>>
    decreases parts.len(),
{
    if parts.len() == 0 {
        seq![]
    } else {
        let item = trim(parts.last());
        let before = list_items(parts.drop_last());
        if item.len() == 0 {
            before
        } else {
            before.push(item)
        }
    }
}

/// Those of the items that are installed, in their order.
pub open spec fn kept_items(items: Seq<Seq<char>>, installed: Seq<String>) -> Seq<Seq<char>>
    decreases items.len(),
{
    if items.len() == 0 {
        seq![]
    } else {
        let before = kept_items(items.drop_last(), installed);
        if listed(installed, items.last()) {
            before.push(items.last())
        } else {
            before
        }
    }
}

/// A line of the configuration with only installed libraries in it, if it names libraries.
pub open spec fn filtered_line(line: Seq<char>, key: Seq<char>, installed: Seq<String>) -> Option<
    Seq<char>,
> {
    match assigned_value(line, key) {
        None => None,
        Some(inner) => Some(
            key + " = '"@ + join(kept_items(list_items(split(inner, ',')), installed), ","@) + "'"@,
        ),
    }
}

/// The line as it is written out.
pub open spec fn line_out(line: Seq<char>, installed: Seq<String>) -> Seq<char> {
    match filtered_line(line, PRELOAD_KEY@, installed) {
        Some(l) => l,
        None => line,
    }
}

/// The lines as they are written out, each with a line feed.
pub open spec fn lines_out(ls: Seq<Seq<char>>, installed: Seq<String>) -> Seq<char>
    decreases ls.len(),
{
    if ls.len() == 0 {
        seq![]
    } else {
        lines_out(ls.drop_last(), installed) + line_out(ls.last(), installed).push('\n')
    }
}

/// The value that a line assigns to `key`.
fn find_assigned<'a>(line: &'a [char], key: &str) -> (r: Option<&'a [char]>)
    ensures
        match r {
            Some(v) => assigned_value(line@, key@) == Some(v@),
            None => assigned_value(line@, key@) is None,
        },
{
    if after_prefix(trimmed_start(line), "#").is_some() {
        return None;
    }
    let rest: &'a [char] = match after_prefix(trimmed_start(line), key) {
        Some(r) => r,
        None => return None,
    };
    let value: &'a [char] = match after_prefix(trimmed_start(rest), "=") {
        Some(v) => trimmed(v),
        None => return None,
    };
    let n: usize = value.len();
    if n >= 2 && value[0] == '\'' && value[n - 1] == '\'' {
        Some(slice_subrange(value, 1, n - 1))
    } else {
        None
    }
}

/// The names in a comma-separated list.
fn items_of<'a>(inner: &'a [char]) -> (r: Vec<&'a [char]>)
    ensures
        texts(r@) == list_items(split(inner@, ',')),
{
    let parts: Vec<&'a [char]> = pieces(inner, ',');
    let mut out: Vec<&'a [char]> = Vec::new();
    assert(texts(parts@.take(0)) == Seq::<Seq<char>>::empty());
    assert(texts(out@) == Seq::<Seq<char>>::empty());
    for i in 0..parts.len()
        invariant
            texts(out@) == list_items(texts(parts@.take(i as int))),
    {
        let ghost t = texts(parts@.take(i + 1));
        let ghost before = out@;
        assert(t.drop_last() == texts(parts@.take(i as int)));
        assert(t.last() == parts@[i as int]@);
        let item: &'a [char] = trimmed(parts[i]);
        if item.len() > 0 {
            out.push(item);
            assert(texts(out@) == texts(before).push(item@));
        }
    }
    assert(parts@.take(parts@.len() as int) == parts@);
    out
}

/// The libraries that lines name, in their order.
pub open spec fn named_libraries(ls: Seq<Seq<char>>) -> Seq<Seq<char>>
    decreases ls.len(),
{
    if ls.len() == 0 {
        seq![]
    } else {
        named_libraries(ls.drop_last()) + match assigned_value(ls.last(), PRELOAD_KEY@) {
            Some(inner) => list_items(split(inner, ',')),
            None => seq![],
        }
    }
}

fn copy_all(items: &Vec<&[char]>, out: &mut Vec<String>)
    ensures
        strings(final(out)@) == strings(old(out)@) + texts(items@),
{
    let ghost base = strings(out@);
    for i in 0..items.len()
        invariant
            strings(out@) == base + texts(items@).take(i as int),
    {
        let ghost before = out@;
        let item: String = text_of(items[i]);
        out.push(item);
        assert(strings(out@) == strings(before).push(item@));
        assert(texts(items@).take(i + 1) == texts(items@).take(i as int).push(item@));
    }
    assert(texts(items@).take(items@.len() as int) == texts(items@));
}

/// The libraries that a configuration names, so that it can be found out which are installed.
pub fn preload_candidates(conf: &str) -> (r: Vec<String>)
    ensures
        strings(r@) == named_libraries(lines(conf@)),
{
    let cs: Vec<char> = chars_of(conf);
    let ls: Vec<&[char]> = lines_of(cs.as_slice());
    let mut out: Vec<String> = Vec::new();
    assert(strings(out@) == Seq::<Seq<char>>::empty());
    assert(texts(ls@.take(0)) == Seq::<Seq<char>>::empty());
    for i in 0..ls.len()
        invariant
            strings(out@) == named_libraries(texts(ls@.take(i as int))),
    {
        let ghost t = texts(ls@.take(i + 1));
        assert(t.drop_last() == texts(ls@.take(i as int)));
        assert(t.last() == ls@[i as int]@);
        match find_assigned(ls[i], PRELOAD_KEY) {
            Some(inner) => {
                copy_all(&items_of(inner), &mut out);
            },
            None => {
                assert(named_libraries(t) == named_libraries(t.drop_last()));
            },
        }
    }
    assert(ls@.take(ls@.len() as int) == ls@);
    out
}

/// The file that holds a library's code.
pub open spec fn library_file(pkglibdir: Seq<char>, lib: Seq<char>) -> Seq<char> {
    path_join(pkglibdir, lib + ".so"@)
}

/// Where a library's code stands if the library is installed.
pub fn library_path(pkglibdir: &str, lib: &str) -> (r: String)
    ensures
        r@ == library_file(pkglibdir@, lib@),
{
    let mut file: String = copy_str(lib);
    file.append(".so");
    join_path(pkglibdir, file.as_str())
}

/// Rewrites a line that names libraries so that only installed ones are left.
pub fn filter_preload_line(line: &str, key: &str, installed: &Vec<String>) -> (r: Option<String>)
    ensures
        match r {
            Some(l) => filtered_line(line@, key@, installed@) == Some(l@),
            None => filtered_line(line@, key@, installed@) is None,
        },
{
    let cs: Vec<char> = chars_of(line);
    filter_line(cs.as_slice(), key, installed)
}

fn filter_line(line: &[char], key: &str, installed: &Vec<String>) -> (r: Option<String>)
    ensures
        match r {
            Some(l) => filtered_line(line@, key@, installed@) == Some(l@),
            None => filtered_line(line@, key@, installed@) is None,
        },
{
    let inner: &[char] = match find_assigned(line, key) {
        Some(v) => v,
        None => return None,
    };
    let items: Vec<&[char]> = items_of(inner);
    let mut kept: Vec<&[char]> = Vec::new();
    assert(texts(items@.take(0)) == Seq::<Seq<char>>::empty());
    assert(texts(kept@) == Seq::<Seq<char>>::empty());
    for i in 0..items.len()
        invariant
            texts(kept@) == kept_items(texts(items@.take(i as int)), installed@),
    {
        let ghost t = texts(items@.take(i + 1));
        let ghost before = kept@;
        assert(t.drop_last() == texts(items@.take(i as int)));
        assert(t.last() == items@[i as int]@);
        if is_listed(installed, items[i]) {
            kept.push(items[i]);
            assert(texts(kept@) == texts(before).push(items@[i as int]@));
        }
    }
    assert(items@.take(items@.len() as int) == items@);
    let mut out: String = copy_str(key);
    out.append(" = '");
    push_joined(&mut out, &kept, ",");
    out.append("'");
    Some(out)
}

/// Rewrites a configuration so that only installed libraries are preloaded; all other lines pass
/// unchanged.
pub fn filter_shared_preload_libraries(conf: &str, installed: &Vec<String>) -> (r: String)
    ensures
        r@ == lines_out(lines(conf@), installed@),
{
    let cs: Vec<char> = chars_of(conf);
    let ls: Vec<&[char]> = lines_of(cs.as_slice());
    let mut out = String::new();
    assert(texts(ls@.take(0)) == Seq::<Seq<char>>::empty());
    assert(out@ == Seq::<char>::empty());
    for i in 0..ls.len()
        invariant
            out@ == lines_out(texts(ls@.take(i as int)), installed@),
    {
        let ghost t = texts(ls@.take(i + 1));
        let ghost before = out@;
        assert(t.drop_last() == texts(ls@.take(i as int)));
        assert(t.last() == ls@[i as int]@);
        match filter_line(ls[i], PRELOAD_KEY, installed) {
            Some(l) => {
                out.append(l.as_str());
            },
            None => {
                push_chars(&mut out, ls[i]);
            },
        }
        out.push('\n');
        assert(out@ == before + line_out(t.last(), installed@).push('\n'));
    }
    assert(ls@.take(ls@.len() as int) == ls@);
    out
}

/// The primary configuration file for an installation.
pub fn beyond_conf(installed: &Vec<String>) -> (r: String)
    ensures
        r@ == lines_out(lines(BEYOND_CONF@), installed@),
{
    filter_shared_preload_libraries(BEYOND_CONF, installed)
}

/// The preloaded libraries of an installation, as one value.
pub fn preload_libraries(installed: &Vec<String>) -> (r: String)
    ensures
        r@ == join(kept_items(named_libraries(lines(BEYOND_CONF@)), installed@), ","@),
{
    let names: Vec<String> = preload_candidates(BEYOND_CONF);
    let mut out = String::new();
    let mut any: bool = false;
    let ghost all = strings(names@);
    let ghost mut kept: Seq<Seq<char>> = seq![];
    assert(all.take(0) == Seq::<Seq<char>>::empty());
    for i in 0..names.len()
        invariant
            all == strings(names@),
            kept == kept_items(all.take(i as int), installed@),
            any <==> kept.len() > 0,
            out@ == join(kept, ","@),
    {
        let ghost t = all.take(i + 1);
        assert(t.drop_last() == all.take(i as int));
        assert(t.last() == names@[i as int]@);
        let cs: Vec<char> = chars_of(names[i].as_str());
        if is_listed(installed, cs.as_slice()) {
            let ghost longer = kept.push(names@[i as int]@);
            assert(longer.drop_last() == kept);
            if any {
                out.append(",");
            }
            any = true;
            out.append(names[i].as_str());
            proof {
                kept = longer;
            }
        }
    }
    assert(all.take(all.len() as int) == all);
    out
}

// ---------------------------------------------------------------------------
// Sizes.
// ---------------------------------------------------------------------------
/// `x` brought into the range from `lo` to `hi`.
pub open spec fn clamped(x: int, lo: int, hi: int) -> int {
    if x < lo {
        lo
    } else if x > hi {
        hi
    } else {
        x
    }
}

/// The larger of two numbers.
pub open spec fn larger(a: int, b: int) -> int {
    if a >= b {
        a
    } else {
        b
    }
}

/// The smaller of two numbers.
pub open spec fn smaller(a: int, b: int) -> int {
    if a <= b {
        a
    } else {
        b
    }
}

fn clamp_u64(x: u64, lo: u64, hi: u64) -> (r: u64)
    requires
        lo <= hi,
    ensures
        r == clamped(x as int, lo as int, hi as int),
{
    if x < lo {
        lo
    } else if x > hi {
        hi
    } else {
        x
    }
}

/// Megabytes in a number of bytes.
pub open spec fn megabytes(bytes: u64) -> int {
    bytes as int / 1_048_576
}

/// Server connections of the pooler: three per CPU, not fewer than 16, not more than 256.
pub open spec fn pool_size(vcpus: u32) -> int {
    clamped(vcpus * 3, 16, 256)
}

/// The most pooler workers: one per four CPUs, at least one, at most eight.
pub open spec fn max_workers(vcpus: u32) -> int {
    clamped(vcpus as int / 4, 1, 8)
}

/// Client connections that one pooler worker accepts.
pub open spec fn max_client_conn(ram_bytes: u64, vcpus: u32) -> int {
    clamped(pool_size(vcpus) * 25, 200, larger(megabytes(ram_bytes) * 4, 200))
}

/// Connections that the server accepts: the pool, two per CPU, ten in reserve; at least 100, and
/// no more than one per 50 MB of memory beyond that. The pool and the reserve fit in any case.
pub open spec fn max_connections(ram_bytes: u64, vcpus: u32) -> int {
    clamped(
        pool_size(vcpus) + vcpus * 2 + 10,
        100,
        larger(megabytes(ram_bytes) / 50, larger(100, pool_size(vcpus) + 10)),
    )
}

/// Shared buffers in megabytes: a quarter of the memory, at least 128.
pub open spec fn shared_buffers(ram_bytes: u64) -> int {
    larger(megabytes(ram_bytes) / 4, 128)
}

/// Server connections of the pooler.
pub fn pgbouncer_pool_size(vcpus: u32) -> (r: u64)
    ensures
        r == pool_size(vcpus),
        16 <= r <= 256,
{
    clamp_u64(vcpus as u64 * 3, 16, 256)
}

/// The most pooler workers that a machine is given.
pub fn pgbouncer_max_workers(vcpus: u32) -> (r: usize)
    ensures
        r == max_workers(vcpus),
        1 <= r <= 8,
{
    clamp_u64(vcpus as u64 / 4, 1, 8) as usize
}

/// Shared buffers in megabytes.
pub fn shared_buffers_mb(ram_bytes: u64) -> (r: u64)
    ensures
        r == shared_buffers(ram_bytes),
{
    let quarter: u64 = ram_bytes / 1_048_576 / 4;
    if quarter > 128 {
        quarter
    } else {
        128
    }
}

// ---------------------------------------------------------------------------
// The pooler.
// ---------------------------------------------------------------------------
/// A text with a line feed at its end.
pub open spec fn with_newline(s: Seq<char>) -> Seq<char> {
    if s.len() > 0 && s.last() == '\n' {
        s
    } else {
        s.push('\n')
    }
}

/// The CA that the pooler is pointed at: a certificate without a chain is its own.
pub open spec fn pooler_ca(tls: TlsFiles) -> Seq<char> {
    match tls.ca {
        Some(ca) => ca,
        None => tls.cert,
    }
}

/// The pooler's configuration.
pub open spec fn pgbouncer_ini_text(tls: TlsFiles, ram_bytes: u64, vcpus: u32) -> Seq<char> {
    with_newline(PGBOUNCER_INI_BASE@)
        + "\n"@
        + "# Pool sizing — generated by beyond-pg from VM resources.\n"@
        + "default_pool_size = "@ + decimal(pool_size(vcpus) as nat) + "\n"@
        + "max_client_conn = "@ + decimal(max_client_conn(ram_bytes, vcpus) as nat) + "\n"@
        + "so_reuseport = 1\n"@
        + "\n"@
        + "# TLS — termination for the public 5432 port (generated by beyond-pg).\n"@
        + "client_tls_sslmode = allow\n"@
        + "client_tls_cert_file = "@ + tls.cert + "\n"@
        + "client_tls_key_file = "@ + tls.key + "\n"@
        + "client_tls_ca_file = "@ + pooler_ca(tls) + "\n"@
}

/// Generates the pooler's configuration: the fixed part, the pool sizes for this machine, and the
/// certificate. Every worker gets the whole pool: workers are added for CPU, not for connections.
pub fn pgbouncer_ini(tls: &TlsConfig, ram_bytes: u64, vcpus: u32) -> (r: String)
    ensures
        r@ == pgbouncer_ini_text(tls@, ram_bytes, vcpus),
{
    let mut out: String = copy_str(PGBOUNCER_INI_BASE);
    let base: Vec<char> = chars_of(PGBOUNCER_INI_BASE);
    if base.len() == 0 || base[base.len() - 1] != '\n' {
        out.push('\n');
    }
    let pool: u64 = pgbouncer_pool_size(vcpus);
    let ram_mb: u64 = ram_bytes / 1_048_576;
    let ceiling: u64 = if ram_mb * 4 > 200 {
        ram_mb * 4
    } else {
        200
    };
    let clients: u64 = clamp_u64(pool * 25, 200, ceiling);
    out.append("\n");
    out.append("# Pool sizing — generated by beyond-pg from VM resources.\n");
    out.append("default_pool_size = ");
    push_decimal(&mut out, pool);
    out.append("\n");
    out.append("max_client_conn = ");
    push_decimal(&mut out, clients);
    out.append("\n");
    out.append("so_reuseport = 1\n");
    out.append("\n");
    out.append("# TLS — termination for the public 5432 port (generated by beyond-pg).\n");
    out.append("client_tls_sslmode = allow\n");
    out.append("client_tls_cert_file = ");
    out.append(tls.cert.as_str());
    out.append("\n");
    out.append("client_tls_key_file = ");
    out.append(tls.key.as_str());
    out.append("\n");
    out.append("client_tls_ca_file = ");
    match &tls.ca {
        Some(ca) => {
            out.append(ca.as_str());
        },
        None => {
            out.append(tls.cert.as_str());
        },
    }
    out.append("\n");
    out
}

/// The configuration file of a pooler worker; the first one has the plain name.
pub open spec fn worker_ini_path(peer_id: nat) -> Seq<char> {
    if peer_id == 1 {
        PGBOUNCER_INI_PATH@
    } else {
        "/etc/pgbouncer/pgbouncer-"@ + decimal(peer_id) + ".ini"@
    }
}

/// The configuration file of a pooler worker.
pub fn pgbouncer_ini_path(peer_id: usize) -> (r: String)
    ensures
        r@ == worker_ini_path(peer_id as nat),
{
    if peer_id == 1 {
        return copy_str(PGBOUNCER_INI_PATH);
    }
    let mut out: String = copy_str("/etc/pgbouncer/pgbouncer-");
    push_decimal(&mut out, peer_id as u64);
    out.append(".ini");
    out
}

/// The directory of the socket over which a pooler worker is reached by its peers.
pub open spec fn peer_socket_dir(peer_id: nat) -> Seq<char> {
    "/var/run/pgbouncer/peer-"@ + decimal(peer_id)
}

/// The directory of the socket over which a pooler worker is reached by its peers.
pub fn pgb_peer_socket_dir(peer_id: usize) -> (r: String)
    ensures
        r@ == peer_socket_dir(peer_id as nat),
{
    let mut out: String = copy_str("/var/run/pgbouncer/peer-");
    push_decimal(&mut out, peer_id as u64);
    out
}

/// The first `n` lines of the map of peers.
pub open spec fn peer_lines(n: nat) -> Seq<char>
    decreases n,
{
    if n == 0 {
        seq![]
    } else {
        peer_lines((n - 1) as nat) + (decimal(n) + " = host="@ + peer_socket_dir(n) + "\n"@)
    }
}

/// The configuration of one pooler worker. Where several may run, each has a socket of its own
/// and all share one map of peers, so that a request to cancel a query finds the worker that
/// runs it.
pub open spec fn worker_ini_text(tls: TlsFiles, ram_bytes: u64, vcpus: u32, peer_id: nat) -> Seq<
    char,
> {
    let plain = pgbouncer_ini_text(tls, ram_bytes, vcpus);
    if max_workers(vcpus) > 1 {
        plain + "unix_socket_dir = "@ + peer_socket_dir(peer_id) + "\npeer_id = "@ + decimal(
            peer_id,
        ) + "\n\n[peers]\n"@ + peer_lines(max_workers(vcpus) as nat)
    } else {
        plain
    }
}

/// Generates the configuration of one pooler worker.
pub fn pgbouncer_worker_ini(tls: &TlsConfig, ram_bytes: u64, vcpus: u32, peer_id: usize) -> (r:
    String)
    ensures
        r@ == worker_ini_text(tls@, ram_bytes, vcpus, peer_id as nat),
{
    let mut out: String = pgbouncer_ini(tls, ram_bytes, vcpus);
    let workers: usize = pgbouncer_max_workers(vcpus);
    if workers > 1 {
        out.append("unix_socket_dir = ");
        out.append(pgb_peer_socket_dir(peer_id).as_str());
        out.append("\npeer_id = ");
        push_decimal(&mut out, peer_id as u64);
        out.append("\n\n[peers]\n");
        let ghost base = out@;
        assert(base + peer_lines(0) == base);
        for i in 0..workers
            invariant
                out@ == base + peer_lines(i as nat),
        {
            let id: usize = i + 1;
            push_decimal(&mut out, id as u64);
            out.append(" = host=");
            out.append(pgb_peer_socket_dir(id).as_str());
            out.append("\n");
            assert(out@ == base + peer_lines(id as nat));
        }
    }
    out
}

// ---------------------------------------------------------------------------
// Tuning.
// ---------------------------------------------------------------------------
/// The tuning that needs a restart.
pub open spec fn tuning_boot_text(ram_bytes: u64, vcpus: u32) -> Seq<char> {
    "# Generated by beyond-pg at boot from VM resources. Do not edit.\n"@
        + "# Regenerated on every boot so resized VMs pick up correct values.\n"@
        + "\n"@
        + "# RAM-derived\n"@
        + "shared_buffers = "@ + decimal(shared_buffers(ram_bytes) as nat) + "MB\n"@
        + "max_connections = "@ + decimal(max_connections(ram_bytes, vcpus) as nat) + "\n"@
        + "wal_buffers = "@ + decimal(clamped(shared_buffers(ram_bytes) / 32, 1, 16) as nat)
        + "MB\n"@
        + "# huge_pages=on requires nr_hugepages to be reserved before postgres starts;\n"@
        + "# apply_kernel_settings() does this earlier in do_boot().\n"@
        + "# Ref: Percona \"Benchmark PostgreSQL with Linux HugePages\";\n"@
        + "#      PostgreSQL docs §19.4\n"@
        + "huge_pages = on\n"@
        + "\n"@
        + "# Replication slot safety cap.\n"@
        + "# A stalled or dead slot (WAL sink, CDC, or otherwise) holds back WAL\n"@
        + "# cleanup, growing pg_wal/ until the primary's disk fills and Postgres\n"@
        + "# crashes.  This hard cap invalidates any slot that falls >4 GB behind\n"@
        + "# so the primary can reclaim WAL instead.  4 GB ≈ 256 segments: enough\n"@
        + "# headroom for a multi-hour sink outage on a moderately busy primary.\n"@
        + "max_slot_wal_keep_size = 4096\n"@
        + "\n"@
        + "# vCPU-derived\n"@
        + "max_worker_processes = "@ + decimal(larger(vcpus + 4, 8) as nat) + "\n"@
        + "max_parallel_workers = "@ + decimal(larger(vcpus as int, 1) as nat) + "\n"@
}

/// Generates the tuning that needs a restart.
pub fn tuning_conf_boot(ram_bytes: u64, vcpus: u32) -> (r: String)
    ensures
        r@ == tuning_boot_text(ram_bytes, vcpus),
{
    let ram_mb: u64 = ram_bytes / 1_048_576;
    let pool: u64 = pgbouncer_pool_size(vcpus);
    let floor: u64 = if pool + 10 > 100 {
        pool + 10
    } else {
        100
    };
    let ceiling: u64 = if ram_mb / 50 > floor {
        ram_mb / 50
    } else {
        floor
    };
    let connections: u64 = clamp_u64(pool + vcpus as u64 * 2 + 10, 100, ceiling);
    let buffers: u64 = shared_buffers_mb(ram_bytes);
    let mut out = String::new();
    out.append("# Generated by beyond-pg at boot from VM resources. Do not edit.\n");
    out.append("# Regenerated on every boot so resized VMs pick up correct values.\n");
    out.append("\n");
    out.append("# RAM-derived\n");
    out.append("shared_buffers = ");
    push_decimal(&mut out, buffers);
    out.append("MB\n");
    out.append("max_connections = ");
    push_decimal(&mut out, connections);
    out.append("\n");
    out.append("wal_buffers = ");
    push_decimal(&mut out, clamp_u64(buffers / 32, 1, 16));
    out.append("MB\n");
    out.append("# huge_pages=on requires nr_hugepages to be reserved before postgres starts;\n");
    out.append("# apply_kernel_settings() does this earlier in do_boot().\n");
    out.append("# Ref: Percona \"Benchmark PostgreSQL with Linux HugePages\";\n");
    out.append("#      PostgreSQL docs §19.4\n");
    out.append("huge_pages = on\n");
    out.append("\n");
    out.append("# Replication slot safety cap.\n");
    out.append("# A stalled or dead slot (WAL sink, CDC, or otherwise) holds back WAL\n");
    out.append("# cleanup, growing pg_wal/ until the primary's disk fills and Postgres\n");
    out.append("# crashes.  This hard cap invalidates any slot that falls >4 GB behind\n");
    out.append("# so the primary can reclaim WAL instead.  4 GB ≈ 256 segments: enough\n");
    out.append("# headroom for a multi-hour sink outage on a moderately busy primary.\n");
    out.append("max_slot_wal_keep_size = 4096\n");
    out.append("\n");
    out.append("# vCPU-derived\n");
    out.append("max_worker_processes = ");
    push_decimal(
        &mut out,
        if vcpus as u64 + 4 > 8 {
            vcpus as u64 + 4
        } else {
            8
        },
    );
    out.append("\n");
    out.append("max_parallel_workers = ");
    push_decimal(
        &mut out,
        if vcpus > 1 {
            vcpus as u64
        } else {
            1
        },
    );
    out.append("\n");
    out
}

/// Working memory per sort or hash step, in megabytes: half of the memory shared by three steps
/// in each connection of the pool, at least 32.
pub open spec fn work_mem(ram_bytes: u64, vcpus: u32) -> int {
    larger(megabytes(ram_bytes) / 2 / (pool_size(vcpus) * 3), 32)
}

/// The tuning that a reload picks up.
pub open spec fn tuning_adaptive_text(ram_bytes: u64, vcpus: u32) -> Seq<char> {
    "# Generated by beyond-pg. Updated at boot and on virtio-mem hotplug.\n"@
        + "# Safe to reload without restarting postgres (pg_reload_conf()).\n"@
        + "\n"@
        + "# RAM-derived (reload-safe)\n"@
        + "effective_cache_size = "@ + decimal((megabytes(ram_bytes) * 3 / 4) as nat) + "MB\n"@
        + "maintenance_work_mem = "@ + decimal(smaller(megabytes(ram_bytes) / 20, 2048) as nat)
        + "MB\n"@
        + "work_mem = "@ + decimal(work_mem(ram_bytes, vcpus) as nat) + "MB\n"@
        + "\n"@
        + "# vCPU-derived (reload-safe)\n"@
        + "max_parallel_workers_per_gather = "@ + decimal(clamped(vcpus as int / 2, 1, 4) as nat)
        + "\n"@
        + "max_parallel_maintenance_workers = "@ + decimal(clamped(vcpus as int / 2, 1, 4) as nat)
        + "\n"@
}

/// Generates the tuning that a reload picks up.
pub fn tuning_conf_adaptive(ram_bytes: u64, vcpus: u32) -> (r: String)
    ensures
        r@ == tuning_adaptive_text(ram_bytes, vcpus),
{
    let ram_mb: u64 = ram_bytes / 1_048_576;
    let pool: u64 = pgbouncer_pool_size(vcpus);
    let share: u64 = ram_mb / 2 / (pool * 3);
    let gather: u64 = clamp_u64(vcpus as u64 / 2, 1, 4);
    let mut out = String::new();
    out.append("# Generated by beyond-pg. Updated at boot and on virtio-mem hotplug.\n");
    out.append("# Safe to reload without restarting postgres (pg_reload_conf()).\n");
    out.append("\n");
    out.append("# RAM-derived (reload-safe)\n");
    out.append("effective_cache_size = ");
    push_decimal(&mut out, ram_mb * 3 / 4);
    out.append("MB\n");
    out.append("maintenance_work_mem = ");
    push_decimal(
        &mut out,
        if ram_mb / 20 < 2048 {
            ram_mb / 20
        } else {
            2048
        },
    );
    out.append("MB\n");
    out.append("work_mem = ");
    push_decimal(
        &mut out,
        if share > 32 {
            share
        } else {
            32
        },
    );
    out.append("MB\n");
    out.append("\n");
    out.append("# vCPU-derived (reload-safe)\n");
    out.append("max_parallel_workers_per_gather = ");
    push_decimal(&mut out, gather);
    out.append("\n");
    out.append("max_parallel_maintenance_workers = ");
    push_decimal(&mut out, gather);
    out.append("\n");
    out
}

// ---------------------------------------------------------------------------
// TLS, recovery, replication.
// ---------------------------------------------------------------------------
/// The server's TLS settings.
pub open spec fn tls_conf_text(tls: TlsFiles) -> Seq<char> {
    let files = "# Generated by beyond-pg at boot. Do not edit — overwritten on every boot.\n\
     # Overrides ssl_cert_file / ssl_key_file from 00-beyond.conf.\n\n"@
        + "ssl_cert_file = '"@ + tls.cert + "'\n"@ + "ssl_key_file = '"@ + tls.key + "'\n"@;
    match tls.ca {
        Some(ca) => files + "ssl_ca_file = '"@ + ca + "'\n"@,
        None => files,
    }
}

/// Generates the server's TLS settings; the CA is named only where there is one.
pub fn tls_conf(tls: &TlsConfig) -> (r: String)
    ensures
        r@ == tls_conf_text(tls@),
{
    let mut out = String::new();
    out.append(
        "# Generated by beyond-pg at boot. Do not edit — overwritten on every boot.\n\
     # Overrides ssl_cert_file / ssl_key_file from 00-beyond.conf.\n\n",
    );
    out.append("ssl_cert_file = '");
    out.append(tls.cert.as_str());
    out.append("'\n");
    out.append("ssl_key_file = '");
    out.append(tls.key.as_str());
    out.append("'\n");
    match &tls.ca {
        Some(ca) => {
            out.append("ssl_ca_file = '");
            out.append(ca.as_str());
            out.append("'\n");
        },
        None => {},
    }
    out
}

/// The head of the recovery settings.
pub const GENERATED_HEAD: &'static str = "# Generated by beyond-pg. Do not edit — overwritten on every boot.\n\n";

/// The settings that name a point in time to recover to, if there is one.
pub open spec fn recovery_target_text(time: Option<Seq<char>>) -> Seq<char> {
    match time {
        Some(t) => "recovery_target_time = '"@ + double_quotes(t) + "'\n"@
            + "recovery_target_action = promote\n"@ + "recovery_target_inclusive = true\n"@,
        None => seq![],
    }
}

fn push_recovery_target(out: &mut String, time: Option<&str>)
    ensures
        final(out)@ == old(out)@ + recovery_target_text(crate::tls::opt_text(time)),
{
    match time {
        Some(t) => {
            out.append("recovery_target_time = '");
            push_doubled(out, t);
            out.append("'\n");
            out.append("recovery_target_action = promote\n");
            out.append("recovery_target_inclusive = true\n");
        },
        None => {},
    }
    assert(out@ == old(out)@ + recovery_target_text(crate::tls::opt_text(time)));
}

/// The settings for recovery from an archive in an object store.
pub open spec fn pitr_text(target: Seq<char>, time: Option<Seq<char>>) -> Seq<char> {
    GENERATED_HEAD@ + "restore_command = 'aws s3 cp "@ + trim_end_char(target, '/')
        + "/%f %p --no-progress'\n"@ + recovery_target_text(time)
}

/// Generates the settings for recovery from an archive in an object store.
pub fn pitr_conf(archive_target: &str, recovery_target_time: Option<&str>) -> (r: String)
    ensures
        r@ == pitr_text(archive_target@, crate::tls::opt_text(recovery_target_time)),
{
    let cs: Vec<char> = chars_of(archive_target);
    let mut out: String = copy_str(GENERATED_HEAD);
    out.append("restore_command = 'aws s3 cp ");
    push_chars(&mut out, trimmed_end_char(cs.as_slice(), '/'));
    out.append("/%f %p --no-progress'\n");
    push_recovery_target(&mut out, recovery_target_time);
    out
}

/// The settings for recovery from a sink that serves segments over HTTP.
pub open spec fn sink_recovery_text(sink: Seq<char>, time: Option<Seq<char>>) -> Seq<char> {
    GENERATED_HEAD@ + "restore_command = 'curl -f -s "@ + trim_end_char(sink, '/')
        + "/%f -o %p'\n"@ + recovery_target_text(time)
}

/// Generates the settings for recovery from a sink that serves segments over HTTP.
pub fn sink_recovery_conf(sink: &str, recovery_target_time: Option<&str>) -> (r: String)
    ensures
        r@ == sink_recovery_text(sink@, crate::tls::opt_text(recovery_target_time)),
{
    let cs: Vec<char> = chars_of(sink);
    let mut out: String = copy_str(GENERATED_HEAD);
    out.append("restore_command = 'curl -f -s ");
    push_chars(&mut out, trimmed_end_char(cs.as_slice(), '/'));
    out.append("/%f -o %p'\n");
    push_recovery_target(&mut out, recovery_target_time);
    out
}

/// The settings of a replica.
pub open spec fn replica_text(conninfo: Seq<char>, sink: Option<Seq<char>>) -> Seq<char> {
    let head = GENERATED_HEAD@ + "primary_conninfo = '"@ + double_quotes(conninfo) + "'\n"@
        + "recovery_target_timeline = 'latest'\n"@;
    match sink {
        Some(url) => head + "restore_command = 'curl -f -s "@ + url + "/%f -o %p'\n"@,
        None => head,
    }
}

/// Generates the settings of a replica: where the primary is, and where to fetch segments that
/// the stream no longer has.
pub fn replica_conf(primary_conninfo: &str, wal_sink_url: Option<&str>) -> (r: String)
    ensures
        r@ == replica_text(primary_conninfo@, crate::tls::opt_text(wal_sink_url)),
{
    let mut out: String = copy_str(GENERATED_HEAD);
    out.append("primary_conninfo = '");
    push_doubled(&mut out, primary_conninfo);
    out.append("'\n");
    out.append("recovery_target_timeline = 'latest'\n");
    match wal_sink_url {
        Some(url) => {
            out.append("restore_command = 'curl -f -s ");
            out.append(url);
            out.append("/%f -o %p'\n");
        },
        None => {},
    }
    out
}

/// The settings that make commits wait for the sink.
pub const WAL_SINK_CONF: &'static str = "# Generated by beyond-pg when BEYOND_PG_WAL_SINK is set.\n\
     # Commits wait for WAL acknowledgment from the WAL sink before returning.\n\
     synchronous_commit = remote_write\n\
     synchronous_standby_names = 'wal_sink'\n";

/// Generates the settings that make commits wait for the sink.
pub fn wal_sink_conf() -> (r: String)
    ensures
        r@ == WAL_SINK_CONF@,
{
    copy_str(WAL_SINK_CONF)
}

// ---------------------------------------------------------------------------
// Paths.
// ---------------------------------------------------------------------------
fn in_pgdata(rest: &str) -> (r: String)
    ensures
        r@ == PGDATA@ + rest@,
{
    let mut out: String = copy_str(PGDATA);
    out.append(rest);
    out
}

/// The directory of the generated configuration files.
pub fn conf_d_dir() -> (r: String)
    ensures
        r@ == PGDATA@ + "/conf.d"@,
{
    in_pgdata("/conf.d")
}

/// The primary configuration file.
pub fn beyond_conf_path() -> (r: String)
    ensures
        r@ == PGDATA@ + "/postgresql.conf"@,
{
    in_pgdata("/postgresql.conf")
}

/// The tuning that needs a restart.
pub fn tuning_conf_path() -> (r: String)
    ensures
        r@ == PGDATA@ + "/conf.d/01-tuning.conf"@,
{
    in_pgdata("/conf.d/01-tuning.conf")
}

/// The tuning that a reload picks up.
pub fn memory_conf_path() -> (r: String)
    ensures
        r@ == PGDATA@ + "/conf.d/02-memory.conf"@,
{
    in_pgdata("/conf.d/02-memory.conf")
}

/// The durability settings.
pub fn durability_conf_path() -> (r: String)
    ensures
        r@ == PGDATA@ + "/conf.d/03-durability.conf"@,
{
    in_pgdata("/conf.d/03-durability.conf")
}

/// The settings that make commits wait for the sink.
pub fn wal_sink_conf_path() -> (r: String)
    ensures
        r@ == PGDATA@ + "/conf.d/03-wal-sink.conf"@,
{
    in_pgdata("/conf.d/03-wal-sink.conf")
}

/// The replica's settings.
pub fn replica_conf_path() -> (r: String)
    ensures
        r@ == PGDATA@ + "/conf.d/04-replica.conf"@,
{
    in_pgdata("/conf.d/04-replica.conf")
}

/// The recovery settings.
pub fn pitr_conf_path() -> (r: String)
    ensures
        r@ == PGDATA@ + "/conf.d/05-pitr.conf"@,
{
    in_pgdata("/conf.d/05-pitr.conf")
}

/// The server's TLS settings. The name sorts behind all others, so that these settings win.
pub fn tls_conf_path() -> (r: String)
    ensures
        r@ == PGDATA@ + "/conf.d/06-tls.conf"@,
{
    in_pgdata("/conf.d/06-tls.conf")
}

// ---------------------------------------------------------------------------
// Laws.
// ---------------------------------------------------------------------------
/// A library is preloaded exactly if it was named and is installed.
pub proof fn law_kept_if_named_and_installed(
    items: Seq<Seq<char>>,
    installed: Seq<String>,
    lib: Seq<char>,
)
    ensures
        kept_items(items, installed).contains(lib) <==> items.contains(lib) && listed(
            installed,
            lib,
        ),
    decreases items.len(),
{
    if items.len() > 0 {
        let rest = items.drop_last();
        law_kept_if_named_and_installed(rest, installed, lib);
        let before = kept_items(rest, installed);
        let kept = kept_items(items, installed);
        assert(items == rest.push(items.last()));
        if rest.contains(lib) {
            let i = choose|i: int| 0 <= i < rest.len() && rest[i] == lib;
            assert(items[i] == lib);
        }
        if items.contains(lib) && !rest.contains(lib) {
            let i = choose|i: int| 0 <= i < items.len() && items[i] == lib;
            assert(i == items.len() - 1) by {
                if i < items.len() - 1 {
                    assert(rest[i] == lib);
                }
            }
        }
        if items.last() == lib {
            assert(items[items.len() - 1] == lib);
        }
        if listed(installed, items.last()) {
            assert(kept == before.push(items.last()));
            if before.contains(lib) {
                let i = choose|i: int| 0 <= i < before.len() && before[i] == lib;
                assert(kept[i] == lib);
            }
            if items.last() == lib {
                assert(kept[kept.len() - 1] == lib);
            }
            if kept.contains(lib) && !before.contains(lib) {
                let i = choose|i: int| 0 <= i < kept.len() && kept[i] == lib;
                assert(i == kept.len() - 1) by {
                    if i < kept.len() - 1 {
                        assert(before[i] == lib);
                    }
                }
            }
        }
    }
}

/// Where every named library is installed, all of them are preloaded, in their order.
pub proof fn law_nothing_is_dropped_where_all_is_installed(
    items: Seq<Seq<char>>,
    installed: Seq<String>,
)
    requires
        forall|i: int| 0 <= i < items.len() ==> listed(installed, #[trigger] items[i]),
    ensures
        kept_items(items, installed) == items,
    decreases items.len(),
{
    if items.len() > 0 {
        let rest = items.drop_last();
        assert forall|i: int| 0 <= i < rest.len() implies listed(installed, #[trigger] rest[i]) by {
            assert(rest[i] == items[i]);
        }
        law_nothing_is_dropped_where_all_is_installed(rest, installed);
        assert(listed(installed, items[items.len() - 1]));
        assert(items == rest.push(items.last()));
    } else {
        assert(kept_items(items, installed) =~= items);
    }
}

/// The pooler at its ceiling takes no more than a quarter of the machine, apart from the one
/// worker that every machine has.
pub proof fn law_pooler_leaves_room(vcpus: u32)
    ensures
        1 <= max_workers(vcpus) <= 8,
        max_workers(vcpus) > 1 ==> max_workers(vcpus) * 4 <= vcpus,
{
}

/// A larger machine never gets a smaller pool or fewer workers.
pub proof fn law_sizes_grow_with_the_machine(a: u32, b: u32)
    requires
        a <= b,
    ensures
        pool_size(a) <= pool_size(b),
        max_workers(a) <= max_workers(b),
{
}

/// On every machine the server accepts more connections than the pooler opens, by at least ten.
pub proof fn law_pool_fits_the_server(ram_bytes: u64, vcpus: u32)
    ensures
        pool_size(vcpus) + 10 <= max_connections(ram_bytes, vcpus),
{
}

/// What doubling of quotes leaves behind when one of each two neighbouring quotes is taken out.
pub open spec fn undouble_quotes(s: Seq<char>) -> Seq<char>
    decreases s.len(),
{
    if s.len() >= 2 && s.last() == '\'' && s[s.len() - 2] == '\'' {
        undouble_quotes(s.take(s.len() - 2)).push('\'')
    } else if s.len() > 0 {
        undouble_quotes(s.drop_last()).push(s.last())
    } else {
        s
    }
}

/// A value between single quotes reads back as it was, whatever quotes it holds.
pub proof fn law_quoted_value_reads_back(s: Seq<char>)
    ensures
        undouble_quotes(double_quotes(s)) == s,
    decreases s.len(),
{
    if s.len() > 0 {
        let rest = s.drop_last();
        law_quoted_value_reads_back(rest);
        let d = double_quotes(s);
        assert(s == rest.push(s.last()));
        if s.last() == '\'' {
            assert(d.take(d.len() - 2) == double_quotes(rest));
        } else {
            assert(d.drop_last() == double_quotes(rest));
        }
    } else {
        assert(undouble_quotes(double_quotes(s)) =~= s);
    }
}

/// A target is written without slashes at its end: adding slashes changes nothing.
pub proof fn law_trailing_slash_changes_nothing(target: Seq<char>, time: Option<Seq<char>>)
    ensures
        pitr_text(target.push('/'), time) == pitr_text(target, time),
        sink_recovery_text(target.push('/'), time) == sink_recovery_text(target, time),
        trim_end_char(target, '/').len() > 0 ==> trim_end_char(target, '/').last() != '/',
{
    assert(target.push('/').drop_last() == target);
    lemma_trim_end_char(target);
}

proof fn lemma_trim_end_char(s: Seq<char>)
    ensures
        trim_end_char(s, '/').len() > 0 ==> trim_end_char(s, '/').last() != '/',
    decreases s.len(),
{
    if s.len() > 0 && s.last() == '/' {
        lemma_trim_end_char(s.drop_last());
    }
}

/// Where the settings stand in the file.
proof fn lemma_kernel_settings()
    ensures
        281 + "\nvm.swappiness = 10\n"@.len() <= SYSCTL_CONF@.len(),
        SYSCTL_CONF@.subrange(281, 281 + "\nvm.swappiness = 10\n"@.len() as int) == "\nvm.swappiness = 10\n"@,
        742 + "\nvm.overcommit_memory = 2\n"@.len() <= SYSCTL_CONF@.len(),
        SYSCTL_CONF@.subrange(742, 742 + "\nvm.overcommit_memory = 2\n"@.len() as int) == "\nvm.overcommit_memory = 2\n"@,
        767 + "\nvm.overcommit_ratio = 80\n"@.len() <= SYSCTL_CONF@.len(),
        SYSCTL_CONF@.subrange(767, 767 + "\nvm.overcommit_ratio = 80\n"@.len() as int) == "\nvm.overcommit_ratio = 80\n"@,
        1316 + "\nvm.dirty_background_bytes = 67108864\n"@.len() <= SYSCTL_CONF@.len(),
        SYSCTL_CONF@.subrange(1316, 1316 + "\nvm.dirty_background_bytes = 67108864\n"@.len() as int) == "\nvm.dirty_background_bytes = 67108864\n"@,
        1353 + "\nvm.dirty_bytes = 536870912\n"@.len() <= SYSCTL_CONF@.len(),
        SYSCTL_CONF@.subrange(1353, 1353 + "\nvm.dirty_bytes = 536870912\n"@.len() as int) == "\nvm.dirty_bytes = 536870912\n"@,
        1571 + "\nvm.min_free_kbytes = 131072\n"@.len() <= SYSCTL_CONF@.len(),
        SYSCTL_CONF@.subrange(1571, 1571 + "\nvm.min_free_kbytes = 131072\n"@.len() as int) == "\nvm.min_free_kbytes = 131072\n"@,
        2140 + "\nkernel.sched_migration_cost_ns = 5000000\n"@.len() <= SYSCTL_CONF@.len(),
        SYSCTL_CONF@.subrange(2140, 2140 + "\nkernel.sched_migration_cost_ns = 5000000\n"@.len() as int) == "\nkernel.sched_migration_cost_ns = 5000000\n"@,
        2438 + "\nkernel.sched_autogroup_enabled = 0\n"@.len() <= SYSCTL_CONF@.len(),
        SYSCTL_CONF@.subrange(2438, 2438 + "\nkernel.sched_autogroup_enabled = 0\n"@.len() as int) == "\nkernel.sched_autogroup_enabled = 0\n"@,
        2772 + "\nnet.core.somaxconn = 1024\n"@.len() <= SYSCTL_CONF@.len(),
        SYSCTL_CONF@.subrange(2772, 2772 + "\nnet.core.somaxconn = 1024\n"@.len() as int) == "\nnet.core.somaxconn = 1024\n"@,
        3092 + "\nfs.aio-max-nr = 1048576\n"@.len() <= SYSCTL_CONF@.len(),
        SYSCTL_CONF@.subrange(3092, 3092 + "\nfs.aio-max-nr = 1048576\n"@.len() as int) == "\nfs.aio-max-nr = 1048576\n"@,
        3408 + "\nnet.ipv4.tcp_syn_retries = 2\n"@.len() <= SYSCTL_CONF@.len(),
        SYSCTL_CONF@.subrange(3408, 3408 + "\nnet.ipv4.tcp_syn_retries = 2\n"@.len() as int) == "\nnet.ipv4.tcp_syn_retries = 2\n"@,
{
    reveal_strlit("\
# vm.swappiness: reduce kernel tendency to swap anonymous pages (e.g. work_mem)
# under moderate memory pressure. Value 10 avoids paging hot database memory
# while leaving the OOM killer a pressure valve.
# Ref: Red Hat PostgreSQL tuning guide; Percona \"Out of Memory Killer\" post
vm.swappiness = 10

# vm.overcommit_memory=2: kernel refuses allocations that exceed CommitLimit
# instead of killing processes after the fact. Postmaster survives; the failing
# client gets ENOMEM instead of a cluster restart.
# vm.overcommit_ratio=80: CommitLimit = (80% * RAM) + swap. Default 50 is too
# tight once shared_buffers (25% RAM) + workers are counted on a dedicated host.
# Ref: PostgreSQL docs §19.4; Cybertec \"Memory Overcommit and PostgreSQL\"
vm.overcommit_memory = 2
vm.overcommit_ratio = 80

# vm.dirty_*_bytes: fix-byte writeback thresholds instead of ratio-based defaults.
# On large-RAM hosts, dirty_background_ratio=10% allows multi-GB dirty backlogs
# before flush starts, causing multi-second I/O stalls timed to checkpoints.
# Tradeoff: ~11-14% TPS reduction and ~50-70% slower vacuum on write-heavy
# workloads — test on your storage before adjusting further.
# Ref: Greg Smith / EDB \"Tuning Linux for Low PostgreSQL Latency\";
#      PostgreSQL mailing list 2010-04-12 (id 4BC796EF.5030902@2ndquadrant.com)
vm.dirty_background_bytes = 67108864
vm.dirty_bytes = 536870912

# vm.min_free_kbytes: kernel page reserve for atomic allocations. Too low and
# the OOM killer fires even when memory is technically available.
# 128 MB is a safe floor for large-RAM hosts.
vm.min_free_kbytes = 131072

# kernel.sched_migration_cost_ns: time the CFS scheduler treats a process as
# \"cache hot\" after migration, resisting re-migration. Default 500µs is far too
# short under a large process table — the scheduler thrashes backends across
# cores, burning system CPU. 5 ms stabilises placement.
# Measured: 5x TPS improvement at 900 connections (20% → 70% sys CPU reversed).
# Ref: Shaun Thomas, pgsql-performance 2012-12-31 (id 50E4AAB1.9040902@optionshouse.com);
#      confirmed on LKML (lkml.iu.edu/hypermail/linux/kernel/1507.1/00767.html)
kernel.sched_migration_cost_ns = 5000000

# kernel.sched_autogroup_enabled: groups tasks by TTY for desktop responsiveness,
# which starves long-running server daemons of CPU time. No benefit on a
# headless VM; disabling gives a standalone ~30% TPS boost.
# Ref: same Shaun Thomas benchmark above
kernel.sched_autogroup_enabled = 0

# net.core.somaxconn: kernel listen-backlog cap for TCP sockets. PostgreSQL's
# own listen_backlog is silently clamped to this. PgBouncer absorbs most
# connection pressure, but raising this prevents drops during restart storms.
# Ref: PostgreSQL docs §19.3; Red Hat RHEL PostgreSQL tuning profile
net.core.somaxconn = 1024

# fs.aio-max-nr: system-wide cap on in-flight async I/O requests.
# Required for PostgreSQL 18+ io_method=io_uring; exhausting the default (65536)
# causes allocation failures under high concurrency with direct I/O.
# Ref: pganalyze \"PostgreSQL 18 Async I/O Explainer\"; Red Hat tuning profile
fs.aio-max-nr = 1048576

# net.ipv4.tcp_syn_retries: SYN retransmit attempts before giving up on a new
# connection. Default 6 (~127s total). Value 2 (~7s) cuts connection setup
# latency when a peer is unreachable — acceptable on a private overlay network
# where packet loss is rare and fast failure is preferred.
net.ipv4.tcp_syn_retries = 2
");
    reveal_strlit("\nvm.swappiness = 10\n");
    assert(SYSCTL_CONF@.subrange(281, 281 + "\nvm.swappiness = 10\n"@.len() as int) =~= "\nvm.swappiness = 10\n"@);
    reveal_strlit("\nvm.overcommit_memory = 2\n");
    assert(SYSCTL_CONF@.subrange(742, 742 + "\nvm.overcommit_memory = 2\n"@.len() as int) =~= "\nvm.overcommit_memory = 2\n"@);
    reveal_strlit("\nvm.overcommit_ratio = 80\n");
    assert(SYSCTL_CONF@.subrange(767, 767 + "\nvm.overcommit_ratio = 80\n"@.len() as int) =~= "\nvm.overcommit_ratio = 80\n"@);
    reveal_strlit("\nvm.dirty_background_bytes = 67108864\n");
    assert(SYSCTL_CONF@.subrange(1316, 1316 + "\nvm.dirty_background_bytes = 67108864\n"@.len() as int) =~= "\nvm.dirty_background_bytes = 67108864\n"@);
    reveal_strlit("\nvm.dirty_bytes = 536870912\n");
    assert(SYSCTL_CONF@.subrange(1353, 1353 + "\nvm.dirty_bytes = 536870912\n"@.len() as int) =~= "\nvm.dirty_bytes = 536870912\n"@);
    reveal_strlit("\nvm.min_free_kbytes = 131072\n");
    assert(SYSCTL_CONF@.subrange(1571, 1571 + "\nvm.min_free_kbytes = 131072\n"@.len() as int) =~= "\nvm.min_free_kbytes = 131072\n"@);
    reveal_strlit("\nkernel.sched_migration_cost_ns = 5000000\n");
    assert(SYSCTL_CONF@.subrange(2140, 2140 + "\nkernel.sched_migration_cost_ns = 5000000\n"@.len() as int) =~= "\nkernel.sched_migration_cost_ns = 5000000\n"@);
    reveal_strlit("\nkernel.sched_autogroup_enabled = 0\n");
    assert(SYSCTL_CONF@.subrange(2438, 2438 + "\nkernel.sched_autogroup_enabled = 0\n"@.len() as int) =~= "\nkernel.sched_autogroup_enabled = 0\n"@);
    reveal_strlit("\nnet.core.somaxconn = 1024\n");
    assert(SYSCTL_CONF@.subrange(2772, 2772 + "\nnet.core.somaxconn = 1024\n"@.len() as int) =~= "\nnet.core.somaxconn = 1024\n"@);
    reveal_strlit("\nfs.aio-max-nr = 1048576\n");
    assert(SYSCTL_CONF@.subrange(3092, 3092 + "\nfs.aio-max-nr = 1048576\n"@.len() as int) =~= "\nfs.aio-max-nr = 1048576\n"@);
    reveal_strlit("\nnet.ipv4.tcp_syn_retries = 2\n");
    assert(SYSCTL_CONF@.subrange(3408, 3408 + "\nnet.ipv4.tcp_syn_retries = 2\n"@.len() as int) =~= "\nnet.ipv4.tcp_syn_retries = 2\n"@);
}

/// The kernel is set up for a machine that runs nothing but the database: these settings stand in its
/// file, each on a line of its own.
pub proof fn law_kernel_is_set_up()
    ensures
        contains(SYSCTL_CONF@, "\nvm.swappiness = 10\n"@),
        contains(SYSCTL_CONF@, "\nvm.overcommit_memory = 2\n"@),
        contains(SYSCTL_CONF@, "\nvm.overcommit_ratio = 80\n"@),
        contains(SYSCTL_CONF@, "\nvm.dirty_background_bytes = 67108864\n"@),
        contains(SYSCTL_CONF@, "\nvm.dirty_bytes = 536870912\n"@),
        contains(SYSCTL_CONF@, "\nvm.min_free_kbytes = 131072\n"@),
        contains(SYSCTL_CONF@, "\nkernel.sched_migration_cost_ns = 5000000\n"@),
        contains(SYSCTL_CONF@, "\nkernel.sched_autogroup_enabled = 0\n"@),
        contains(SYSCTL_CONF@, "\nnet.core.somaxconn = 1024\n"@),
        contains(SYSCTL_CONF@, "\nfs.aio-max-nr = 1048576\n"@),
        contains(SYSCTL_CONF@, "\nnet.ipv4.tcp_syn_retries = 2\n"@),
{
    assert(contains(SYSCTL_CONF@, "\nvm.swappiness = 10\n"@)) by {
        lemma_kernel_settings();
        assert(SYSCTL_CONF@.subrange(281, 281 + "\nvm.swappiness = 10\n"@.len() as int) == "\nvm.swappiness = 10\n"@);
    }
    assert(contains(SYSCTL_CONF@, "\nvm.overcommit_memory = 2\n"@)) by {
        lemma_kernel_settings();
        assert(SYSCTL_CONF@.subrange(742, 742 + "\nvm.overcommit_memory = 2\n"@.len() as int) == "\nvm.overcommit_memory = 2\n"@);
    }
    assert(contains(SYSCTL_CONF@, "\nvm.overcommit_ratio = 80\n"@)) by {
        lemma_kernel_settings();
        assert(SYSCTL_CONF@.subrange(767, 767 + "\nvm.overcommit_ratio = 80\n"@.len() as int) == "\nvm.overcommit_ratio = 80\n"@);
    }
    assert(contains(SYSCTL_CONF@, "\nvm.dirty_background_bytes = 67108864\n"@)) by {
        lemma_kernel_settings();
        assert(SYSCTL_CONF@.subrange(1316, 1316 + "\nvm.dirty_background_bytes = 67108864\n"@.len() as int) == "\nvm.dirty_background_bytes = 67108864\n"@);
    }
    assert(contains(SYSCTL_CONF@, "\nvm.dirty_bytes = 536870912\n"@)) by {
        lemma_kernel_settings();
        assert(SYSCTL_CONF@.subrange(1353, 1353 + "\nvm.dirty_bytes = 536870912\n"@.len() as int) == "\nvm.dirty_bytes = 536870912\n"@);
    }
    assert(contains(SYSCTL_CONF@, "\nvm.min_free_kbytes = 131072\n"@)) by {
        lemma_kernel_settings();
        assert(SYSCTL_CONF@.subrange(1571, 1571 + "\nvm.min_free_kbytes = 131072\n"@.len() as int) == "\nvm.min_free_kbytes = 131072\n"@);
    }
    assert(contains(SYSCTL_CONF@, "\nkernel.sched_migration_cost_ns = 5000000\n"@)) by {
        lemma_kernel_settings();
        assert(SYSCTL_CONF@.subrange(2140, 2140 + "\nkernel.sched_migration_cost_ns = 5000000\n"@.len() as int) == "\nkernel.sched_migration_cost_ns = 5000000\n"@);
    }
    assert(contains(SYSCTL_CONF@, "\nkernel.sched_autogroup_enabled = 0\n"@)) by {
        lemma_kernel_settings();
        assert(SYSCTL_CONF@.subrange(2438, 2438 + "\nkernel.sched_autogroup_enabled = 0\n"@.len() as int) == "\nkernel.sched_autogroup_enabled = 0\n"@);
    }
    assert(contains(SYSCTL_CONF@, "\nnet.core.somaxconn = 1024\n"@)) by {
        lemma_kernel_settings();
        assert(SYSCTL_CONF@.subrange(2772, 2772 + "\nnet.core.somaxconn = 1024\n"@.len() as int) == "\nnet.core.somaxconn = 1024\n"@);
    }
    assert(contains(SYSCTL_CONF@, "\nfs.aio-max-nr = 1048576\n"@)) by {
        lemma_kernel_settings();
        assert(SYSCTL_CONF@.subrange(3092, 3092 + "\nfs.aio-max-nr = 1048576\n"@.len() as int) == "\nfs.aio-max-nr = 1048576\n"@);
    }
    assert(contains(SYSCTL_CONF@, "\nnet.ipv4.tcp_syn_retries = 2\n"@)) by {
        lemma_kernel_settings();
        assert(SYSCTL_CONF@.subrange(3408, 3408 + "\nnet.ipv4.tcp_syn_retries = 2\n"@.len() as int) == "\nnet.ipv4.tcp_syn_retries = 2\n"@);
    }
}

} // verus!
