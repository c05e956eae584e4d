//! What the generated files say: the values that they assign.
//!
//! The files are read here as the server and the pooler read them, line by line, and the laws speak
//! of what is found, in terms of the machine and the settings that a file was generated for.
use crate::boot::HUGEPAGES_FALLBACK_CONF;
use crate::config::{
    clamped, larger, max_client_conn, max_connections, megabytes, pgbouncer_ini_text, pitr_text,
    max_workers, peer_lines, peer_socket_dir, worker_ini_text,
    pool_size, pooler_ca, recovery_target_text, replica_text, shared_buffers, sink_recovery_text,
    smaller, tls_conf_text, tuning_adaptive_text, tuning_boot_text, work_mem,
    DURABILITY_CONF_EPHEMERAL, GENERATED_HEAD, PGBOUNCER_INI_BASE, WAL_SINK_CONF,
};
use crate::number::{decimal, digit_value, lemma_numeral_first};
use crate::settings::{
    closed, free, is_end, is_head, is_key, is_remark, key_of, lemma_add_line, lemma_adaptive_lines,
    lemma_base_sets_no_ca, lemma_boot_lines, lemma_pooler_lines,
};
use crate::text::{
    double_quotes, first_of, is_white, lemma_first_of, lines, strip_cr, trim, trim_end,
    trim_end_char, trim_start,
};
use crate::tls::TlsFiles;
use vstd::prelude::*;

verus! {

// ---------------------------------------------------------------------------
// Reading.
// ---------------------------------------------------------------------------
/// The key and the value of a line that assigns one: what stands before and behind its first equals
/// sign. A blank line and a remark assign nothing.
pub open spec fn entry_of(line: Seq<char>) -> Option<(Seq<char>, Seq<char>)> {
    match key_of(line) {
        Some(k) => Some((k, trim(line.skip(first_of(line, '=') + 1)))),
        None => None,
    }
}

/// The keys and values of lines, in their order.
pub open spec fn line_entries(ls: Seq<Seq<char>>) -> Seq<(Seq<char>, Seq<char>)>
    decreases ls.len(),
{
    if ls.len() == 0 {
        seq![]
    } else {
        match entry_of(ls.last()) {
            Some(e) => line_entries(ls.drop_last()).push(e),
            None => line_entries(ls.drop_last()),
        }
    }
}

/// The keys and values of a text, in their order.
pub open spec fn entries(s: Seq<char>) -> Seq<(Seq<char>, Seq<char>)> {
    line_entries(lines(s))
}

/// A further line adds what it assigns.
pub(crate) proof fn lemma_entries_add(t: Seq<char>, line: Seq<char>)
    requires
        closed(t),
        free(line, '\n'),
    ensures
        closed(t + line.push('\n')),
        entries(t + line.push('\n')) == (match entry_of(strip_cr(line)) {
            Some(e) => entries(t).push(e),
            None => entries(t),
        }),
{
    lemma_add_line(t, line);
    assert(lines(t).push(strip_cr(line)).drop_last() == lines(t));
}

/// An empty text assigns nothing.
pub(crate) proof fn lemma_no_entries()
    ensures
        entries(seq![]) == Seq::<(Seq<char>, Seq<char>)>::empty(),
        closed(seq![]),
{
    lemma_first_of(seq![], '\n');
}

/// A blank line or a remark assigns nothing.
pub(crate) proof fn lemma_no_entry(t: Seq<char>, c: Seq<char>)
    requires
        closed(t),
        is_remark(c),
    ensures
        closed(t + c),
        entries(t + c) == entries(t),
{
    let line = c.drop_last();
    lemma_entries_add(t, line);
    assert(line.push('\n') == c);
    if c.len() > 1 {
        assert(line[0] == '#');
        assert(strip_cr(line)[0] == '#');
        assert(!is_white('#'));
        assert(trim_start(strip_cr(line)) == strip_cr(line));
    } else {
        assert(trim_start(strip_cr(line)).len() == 0);
    }
}

/// White space at the end does not count.
proof fn lemma_trim_drop(s: Seq<char>)
    requires
        s.len() > 0,
        is_white(s.last()),
    ensures
        trim(s.drop_last()) == trim(s),
    decreases s.len(),
{
    if s.len() == 1 {
        assert(trim_start(s) == trim_start(s.skip(1)));
        assert(s.skip(1) =~= s.drop_last());
    } else if is_white(s[0]) {
        assert(s.skip(1).drop_last() =~= s.drop_last().skip(1));
        lemma_trim_drop(s.skip(1));
    }
}

/// What begins and ends in a visible character has nothing to trim.
pub(crate) proof fn lemma_trim_visible(s: Seq<char>)
    requires
        s.len() > 0,
        !is_white(s[0]),
        !is_white(s.last()),
    ensures
        trim(s) == s,
{
}

/// The line of a setting adds its key and its value.
pub(crate) proof fn lemma_entry(t: Seq<char>, k: Seq<char>, v: Seq<char>, c: Seq<char>)
    requires
        closed(t),
        is_key(k),
        free(k, '\n'),
        free(v, '\n'),
        c == (k + " = "@ + v).push('\n'),
    ensures
        closed(t + c),
        entries(t + c) == entries(t).push((k, trim(v))),
{
    reveal_strlit(" = ");
    let n = k.len() as int;
    let line = k + " = "@ + v;
    assert(line[n] == ' ' && line[n + 1] == '=' && line[n + 2] == ' ');
    assert forall|j: int| 0 <= j < line.len() implies #[trigger] line[j] != '\n' by {
        if j < n {
            assert(line[j] == k[j]);
        } else if j >= n + 3 {
            assert(line[j] == v[j - n - 3]);
        }
    }
    lemma_entries_add(t, line);
    let s = strip_cr(line);
    assert(s.len() >= n + 3);
    assert forall|j: int| 0 <= j < n implies s[j] == k[j] by {
        assert(s[j] == line[j]);
    }
    assert(trim_start(s) == s);
    lemma_first_of(s, '=');
    assert(s[n + 1] == '=');
    assert forall|j: int| 0 <= j <= n implies s[j] != '=' by {
        if j < n {
            assert(s[j] == k[j]);
        }
    }
    assert(first_of(s, '=') == n + 1);
    let before = s.take(n + 1);
    assert(before[0] == k[0]);
    assert(trim_start(before) == before);
    assert(before.drop_last() == k);
    assert(is_white(' ') && is_white('\r'));
    assert(trim_end(before) == trim_end(k));
    assert(trim_end(k) == k);
    let value = s.skip(n + 2);
    let full = line.skip(n + 2);
    assert(full.skip(1) =~= v);
    assert(full[0] == ' ');
    assert(trim_start(full) == trim_start(v));
    if line.last() == '\r' {
        assert(value =~= full.drop_last());
        assert(full.last() == '\r');
        lemma_trim_drop(full);
    } else {
        assert(value == full);
    }
}

/// No digit is a line feed or white space, and a numeral has one.
pub(crate) proof fn lemma_decimal_visible(n: nat)
    ensures
        decimal(n).len() > 0,
        free(decimal(n), '\n'),
        forall|j: int| 0 <= j < decimal(n).len() ==> !is_white(#[trigger] decimal(n)[j]),
{
    let d = decimal(n);
    lemma_numeral_first(n, 10, false);
    assert forall|j: int| 0 <= j < d.len() implies #[trigger] d[j] != '\n' && !is_white(d[j]) by {
        assert(digit_value(d[j]) < 16);
    }
}

/// The line of a setting whose value is a number adds its key and that number.
pub(crate) proof fn lemma_number_entry(
    t: Seq<char>,
    k: Seq<char>,
    p: Seq<char>,
    n: nat,
    unit: Seq<char>,
    end: Seq<char>,
)
    requires
        closed(t),
        is_head(p, k),
        is_end(end),
        unit == end.drop_last(),
        unit.len() > 0 ==> !is_white(unit.last()),
    ensures
        closed(t + p + decimal(n) + end),
        entries(t + p + decimal(n) + end) == entries(t).push((k, decimal(n) + unit)),
{
    lemma_decimal_visible(n);
    let v = decimal(n) + unit;
    lemma_value_entry(t, k, p, decimal(n), end);
    assert(v[0] == decimal(n)[0]);
    lemma_trim_visible(v);
}

/// The line of a setting with a given value adds its key and that value.
pub(crate) proof fn lemma_value_entry(
    t: Seq<char>,
    k: Seq<char>,
    p: Seq<char>,
    v: Seq<char>,
    end: Seq<char>,
)
    requires
        closed(t),
        is_head(p, k),
        free(v, '\n'),
        is_end(end),
    ensures
        closed(t + p + v + end),
        entries(t + p + v + end) == entries(t).push((k, trim(v + end.drop_last()))),
{
    let w = v + end.drop_last();
    let c = (k + " = "@ + w).push('\n');
    assert forall|j: int| 0 <= j < w.len() implies #[trigger] w[j] != '\n' by {
        if j >= v.len() {
            assert(w[j] == end.drop_last()[j - v.len()]);
        }
    }
    assert forall|j: int| 0 <= j < k.len() implies #[trigger] k[j] != '\n' by {
        assert(p[j] == k[j]);
    }
    assert(end =~= end.drop_last().push('\n'));
    assert(c =~= p + v + end);
    lemma_entry(t, k, w, c);
    assert(t + c =~= t + p + v + end);
}

// ---------------------------------------------------------------------------
// Tuning.
// ---------------------------------------------------------------------------
/// The units that sizes are written with.
proof fn lemma_units()
    ensures
        "MB"@.len() == 2,
        !is_white("MB"@.last()),
        "MB\n"@.drop_last() == "MB"@,
        ""@ == Seq::<char>::empty(),
        "\n"@.drop_last() == ""@,
{
    reveal_strlit("MB");
    reveal_strlit("MB\n");
    reveal_strlit("\n");
    reveal_strlit("");
    assert("MB\n"@.drop_last() =~= "MB"@);
    assert("\n"@.drop_last() =~= ""@);
    assert(""@ =~= Seq::<char>::empty());
}

proof fn lemma_literal_huge_pages()
    ensures
        is_key("huge_pages"@),
        free("huge_pages"@, '\n'),
        free("on"@, '\n'),
        trim("on"@) == "on"@,
        "huge_pages = on\n"@ == ("huge_pages"@ + " = "@ + "on"@).push('\n'),
{
    reveal_strlit("huge_pages");
    reveal_strlit(" = ");
    reveal_strlit("on");
    reveal_strlit("huge_pages = on\n");
    assert("huge_pages = on\n"@ =~= ("huge_pages"@ + " = "@ + "on"@).push('\n'));
    lemma_trim_visible("on"@);
}

proof fn lemma_literal_max_slot_wal_keep_size()
    ensures
        is_key("max_slot_wal_keep_size"@),
        free("max_slot_wal_keep_size"@, '\n'),
        free("4096"@, '\n'),
        trim("4096"@) == "4096"@,
        "max_slot_wal_keep_size = 4096\n"@ == ("max_slot_wal_keep_size"@ + " = "@ + "4096"@).push('\n'),
{
    reveal_strlit("max_slot_wal_keep_size");
    reveal_strlit(" = ");
    reveal_strlit("4096");
    reveal_strlit("max_slot_wal_keep_size = 4096\n");
    assert("max_slot_wal_keep_size = 4096\n"@ =~= ("max_slot_wal_keep_size"@ + " = "@ + "4096"@).push('\n'));
    lemma_trim_visible("4096"@);
}

/// What the tuning that a reload picks up sets: the cache that the planner counts on, the memory for
/// upkeep and for each step of a query, and the workers for a query and for upkeep.
pub open spec fn adaptive_entries(cache: nat, upkeep: nat, step: nat, helpers: nat) -> Seq<
    (Seq<char>, Seq<char>),
> {
    seq![
        ("effective_cache_size"@, decimal(cache) + "MB"@),
        ("maintenance_work_mem"@, decimal(upkeep) + "MB"@),
        ("work_mem"@, decimal(step) + "MB"@),
        ("max_parallel_workers_per_gather"@, decimal(helpers)),
        ("max_parallel_maintenance_workers"@, decimal(helpers)),
    ]
}

#[verifier::rlimit(60)]
proof fn lemma_adaptive_entries(ram_bytes: u64, vcpus: u32)
    ensures
        entries(tuning_adaptive_text(ram_bytes, vcpus)) == adaptive_entries(
            (megabytes(ram_bytes) * 3 / 4) as nat,
            smaller(megabytes(ram_bytes) / 20, 2048) as nat,
            work_mem(ram_bytes, vcpus) as nat,
            clamped(vcpus as int / 2, 1, 4) as nat,
        ),
{
    let t0 = Seq::<char>::empty();
    lemma_no_entries();
    lemma_units();
    lemma_adaptive_lines();
    let t1 = t0 + "# Generated by beyond-pg. Updated at boot and on virtio-mem hotplug.\n"@;
    lemma_no_entry(t0, "# Generated by beyond-pg. Updated at boot and on virtio-mem hotplug.\n"@);
    let t2 = t1 + "# Safe to reload without restarting postgres (pg_reload_conf()).\n"@;
    lemma_no_entry(t1, "# Safe to reload without restarting postgres (pg_reload_conf()).\n"@);
    let t3 = t2 + "\n"@;
    lemma_no_entry(t2, "\n"@);
    let t4 = t3 + "# RAM-derived (reload-safe)\n"@;
    lemma_no_entry(t3, "# RAM-derived (reload-safe)\n"@);
    let t5 = t4 + "effective_cache_size = "@ + decimal((megabytes(ram_bytes) * 3 / 4) as nat) + "MB\n"@;
    lemma_number_entry(t4, "effective_cache_size"@, "effective_cache_size = "@, (megabytes(ram_bytes) * 3 / 4) as nat, "MB"@, "MB\n"@);
    let t6 = t5 + "maintenance_work_mem = "@ + decimal(smaller(megabytes(ram_bytes) / 20, 2048) as nat) + "MB\n"@;
    lemma_number_entry(t5, "maintenance_work_mem"@, "maintenance_work_mem = "@, smaller(megabytes(ram_bytes) / 20, 2048) as nat, "MB"@, "MB\n"@);
    let t7 = t6 + "work_mem = "@ + decimal(work_mem(ram_bytes, vcpus) as nat) + "MB\n"@;
    lemma_number_entry(t6, "work_mem"@, "work_mem = "@, work_mem(ram_bytes, vcpus) as nat, "MB"@, "MB\n"@);
    let t8 = t7 + "\n"@;
    lemma_no_entry(t7, "\n"@);
    let t9 = t8 + "# vCPU-derived (reload-safe)\n"@;
    lemma_no_entry(t8, "# vCPU-derived (reload-safe)\n"@);
    let t10 = t9 + "max_parallel_workers_per_gather = "@ + decimal(clamped(vcpus as int / 2, 1, 4) as nat) + "\n"@;
    lemma_number_entry(t9, "max_parallel_workers_per_gather"@, "max_parallel_workers_per_gather = "@, clamped(vcpus as int / 2, 1, 4) as nat, ""@, "\n"@);
    let t11 = t10 + "max_parallel_maintenance_workers = "@ + decimal(clamped(vcpus as int / 2, 1, 4) as nat) + "\n"@;
    lemma_number_entry(t10, "max_parallel_maintenance_workers"@, "max_parallel_maintenance_workers = "@, clamped(vcpus as int / 2, 1, 4) as nat, ""@, "\n"@);
    assert(t1 =~= "# Generated by beyond-pg. Updated at boot and on virtio-mem hotplug.\n"@);
    assert(decimal(clamped(vcpus as int / 2, 1, 4) as nat) + ""@ =~= decimal(
        clamped(vcpus as int / 2, 1, 4) as nat,
    ));
    assert(entries(t11) =~= adaptive_entries(
        (megabytes(ram_bytes) * 3 / 4) as nat,
        smaller(megabytes(ram_bytes) / 20, 2048) as nat,
        work_mem(ram_bytes, vcpus) as nat,
        clamped(vcpus as int / 2, 1, 4) as nat,
    ));
}

/// The tuning that a reload picks up divides the machine's memory: the planner counts on three
/// quarters of it; upkeep may take a twentieth, but no more than two gigabytes; and three steps of a
/// query in each connection of the pool (three per CPU, from 16 to 256) have half of it to share,
/// none of it left over that would make a share larger, and not less than 32 MB each. Half of the
/// CPUs, from one to four, help with a query.
pub proof fn law_memory_is_divided(ram_bytes: u64, vcpus: u32)
    ensures
        exists|cache: nat, upkeep: nat, step: nat, helpers: nat|
            {
                let mb = ram_bytes as int / 1_048_576;
                let pool: int = if vcpus < 6 {
                    16
                } else if vcpus > 85 {
                    256
                } else {
                    3 * vcpus
                };
                &&& entries(tuning_adaptive_text(ram_bytes, vcpus)) == #[trigger] adaptive_entries(
                    cache,
                    upkeep,
                    step,
                    helpers,
                )
                &&& 4 * cache <= 3 * mb < 4 * (cache + 1)
                &&& 20 * upkeep <= mb && upkeep <= 2048 && (upkeep == 2048 || mb < 20 * (upkeep + 1))
                &&& step >= 32 && (step == 32 || 2 * (step * pool * 3) <= mb)
                &&& mb < 2 * ((step + 1) * pool * 3)
                &&& 1 <= helpers <= 4
                &&& helpers == 1 || 2 * helpers <= vcpus
                &&& helpers == 4 || vcpus < 2 * (helpers + 1)
            },
{
    let mb = megabytes(ram_bytes);
    let pool = pool_size(vcpus);
    let step = work_mem(ram_bytes, vcpus);
    lemma_adaptive_entries(ram_bytes, vcpus);
    lemma_share(mb, pool, step);
    let used = adaptive_entries(
        (mb * 3 / 4) as nat,
        smaller(mb / 20, 2048) as nat,
        step as nat,
        clamped(vcpus as int / 2, 1, 4) as nat,
    );
    assert(entries(tuning_adaptive_text(ram_bytes, vcpus)) == used);
}

proof fn lemma_share(mb: int, pool: int, step: int)
    requires
        mb >= 0,
        16 <= pool <= 256,
        step == larger(mb / 2 / (pool * 3), 32),
    ensures
        step >= 32,
        step == 32 || 2 * (step * pool * 3) <= mb,
        mb < 2 * ((step + 1) * pool * 3),
{
    let d = pool * 3;
    let q = mb / 2 / d;
    assert(d * q <= mb / 2 < d * (q + 1)) by (nonlinear_arith)
        requires
            d > 0,
            mb / 2 >= 0,
            q == mb / 2 / d,
    ;
    assert(step * pool * 3 == d * step) by (nonlinear_arith)
        requires
            d == pool * 3,
    ;
    assert((step + 1) * pool * 3 == d * (step + 1)) by (nonlinear_arith)
        requires
            d == pool * 3,
    ;
    assert(d * (q + 1) <= d * (step + 1)) by (nonlinear_arith)
        requires
            q <= step,
            d > 0,
    ;
}

/// What the tuning that needs a restart sets.
pub open spec fn boot_entries(
    buffers: nat,
    connections: nat,
    log_buffers: nat,
    processes: nat,
    helpers: nat,
) -> Seq<(Seq<char>, Seq<char>)> {
    seq![
        ("shared_buffers"@, decimal(buffers) + "MB"@),
        ("max_connections"@, decimal(connections)),
        ("wal_buffers"@, decimal(log_buffers) + "MB"@),
        ("huge_pages"@, "on"@),
        ("max_slot_wal_keep_size"@, "4096"@),
        ("max_worker_processes"@, decimal(processes)),
        ("max_parallel_workers"@, decimal(helpers)),
    ]
}

#[verifier::rlimit(60)]
proof fn lemma_boot_entries(ram_bytes: u64, vcpus: u32)
    ensures
        entries(tuning_boot_text(ram_bytes, vcpus)) == boot_entries(
            shared_buffers(ram_bytes) as nat,
            max_connections(ram_bytes, vcpus) as nat,
            clamped(shared_buffers(ram_bytes) / 32, 1, 16) as nat,
            larger(vcpus + 4, 8) as nat,
            larger(vcpus as int, 1) as nat,
        ),
{
    let t0 = Seq::<char>::empty();
    lemma_no_entries();
    lemma_units();
    lemma_boot_lines();
    let t1 = t0 + "# Generated by beyond-pg at boot from VM resources. Do not edit.\n"@;
    lemma_no_entry(t0, "# Generated by beyond-pg at boot from VM resources. Do not edit.\n"@);
    let t2 = t1 + "# Regenerated on every boot so resized VMs pick up correct values.\n"@;
    lemma_no_entry(t1, "# Regenerated on every boot so resized VMs pick up correct values.\n"@);
    let t3 = t2 + "\n"@;
    lemma_no_entry(t2, "\n"@);
    let t4 = t3 + "# RAM-derived\n"@;
    lemma_no_entry(t3, "# RAM-derived\n"@);
    let t5 = t4 + "shared_buffers = "@ + decimal(shared_buffers(ram_bytes) as nat) + "MB\n"@;
    lemma_number_entry(t4, "shared_buffers"@, "shared_buffers = "@, shared_buffers(ram_bytes) as nat, "MB"@, "MB\n"@);
    let t6 = t5 + "max_connections = "@ + decimal(max_connections(ram_bytes, vcpus) as nat) + "\n"@;
    lemma_number_entry(t5, "max_connections"@, "max_connections = "@, max_connections(ram_bytes, vcpus) as nat, ""@, "\n"@);
    let t7 = t6 + "wal_buffers = "@ + decimal(clamped(shared_buffers(ram_bytes) / 32, 1, 16) as nat) + "MB\n"@;
    lemma_number_entry(t6, "wal_buffers"@, "wal_buffers = "@, clamped(shared_buffers(ram_bytes) / 32, 1, 16) as nat, "MB"@, "MB\n"@);
    let t8 = t7 + "# huge_pages=on requires nr_hugepages to be reserved before postgres starts;\n"@;
    lemma_no_entry(t7, "# huge_pages=on requires nr_hugepages to be reserved before postgres starts;\n"@);
    let t9 = t8 + "# apply_kernel_settings() does this earlier in do_boot().\n"@;
    lemma_no_entry(t8, "# apply_kernel_settings() does this earlier in do_boot().\n"@);
    let t10 = t9 + "# Ref: Percona \"Benchmark PostgreSQL with Linux HugePages\";\n"@;
    lemma_no_entry(t9, "# Ref: Percona \"Benchmark PostgreSQL with Linux HugePages\";\n"@);
    let t11 = t10 + "#      PostgreSQL docs §19.4\n"@;
    lemma_no_entry(t10, "#      PostgreSQL docs §19.4\n"@);
    let t12 = t11 + "huge_pages = on\n"@;
    lemma_literal_huge_pages();
    lemma_entry(t11, "huge_pages"@, "on"@, "huge_pages = on\n"@);
    let t13 = t12 + "\n"@;
    lemma_no_entry(t12, "\n"@);
    let t14 = t13 + "# Replication slot safety cap.\n"@;
    lemma_no_entry(t13, "# Replication slot safety cap.\n"@);
    let t15 = t14 + "# A stalled or dead slot (WAL sink, CDC, or otherwise) holds back WAL\n"@;
    lemma_no_entry(t14, "# A stalled or dead slot (WAL sink, CDC, or otherwise) holds back WAL\n"@);
    let t16 = t15 + "# cleanup, growing pg_wal/ until the primary's disk fills and Postgres\n"@;
    lemma_no_entry(t15, "# cleanup, growing pg_wal/ until the primary's disk fills and Postgres\n"@);
    let t17 = t16 + "# crashes.  This hard cap invalidates any slot that falls >4 GB behind\n"@;
    lemma_no_entry(t16, "# crashes.  This hard cap invalidates any slot that falls >4 GB behind\n"@);
    let t18 = t17 + "# so the primary can reclaim WAL instead.  4 GB ≈ 256 segments: enough\n"@;
    lemma_no_entry(t17, "# so the primary can reclaim WAL instead.  4 GB ≈ 256 segments: enough\n"@);
    let t19 = t18 + "# headroom for a multi-hour sink outage on a moderately busy primary.\n"@;
    lemma_no_entry(t18, "# headroom for a multi-hour sink outage on a moderately busy primary.\n"@);
    let t20 = t19 + "max_slot_wal_keep_size = 4096\n"@;
    lemma_literal_max_slot_wal_keep_size();
    lemma_entry(t19, "max_slot_wal_keep_size"@, "4096"@, "max_slot_wal_keep_size = 4096\n"@);
    let t21 = t20 + "\n"@;
    lemma_no_entry(t20, "\n"@);
    let t22 = t21 + "# vCPU-derived\n"@;
    lemma_no_entry(t21, "# vCPU-derived\n"@);
    let t23 = t22 + "max_worker_processes = "@ + decimal(larger(vcpus + 4, 8) as nat) + "\n"@;
    lemma_number_entry(t22, "max_worker_processes"@, "max_worker_processes = "@, larger(vcpus + 4, 8) as nat, ""@, "\n"@);
    let t24 = t23 + "max_parallel_workers = "@ + decimal(larger(vcpus as int, 1) as nat) + "\n"@;
    lemma_number_entry(t23, "max_parallel_workers"@, "max_parallel_workers = "@, larger(vcpus as int, 1) as nat, ""@, "\n"@);
    assert(t1 =~= "# Generated by beyond-pg at boot from VM resources. Do not edit.\n"@);
    let connections = decimal(max_connections(ram_bytes, vcpus) as nat);
    let processes = decimal(larger(vcpus + 4, 8) as nat);
    let helpers = decimal(larger(vcpus as int, 1) as nat);
    assert(connections + ""@ =~= connections);
    assert(processes + ""@ =~= processes);
    assert(helpers + ""@ =~= helpers);
    assert(entries(t24) =~= boot_entries(
        shared_buffers(ram_bytes) as nat,
        max_connections(ram_bytes, vcpus) as nat,
        clamped(shared_buffers(ram_bytes) / 32, 1, 16) as nat,
        larger(vcpus + 4, 8) as nat,
        larger(vcpus as int, 1) as nat,
    ));
}

/// The tuning that needs a restart gives shared buffers a quarter of the memory, at least 128 MB,
/// and the buffers of the log a thirty-second part of those, from one to 16 MB. The server accepts
/// at least 100 connections and always ten more than the pool has, and beyond that no more than one
/// for each 50 MB of memory and what the pool, two connections per CPU and ten come to. Every CPU
/// has a process that helps with queries, with four more beside, but not fewer than eight in all.
/// A slot that is left behind holds back four gigabytes of the log at most.
pub proof fn law_server_is_sized(ram_bytes: u64, vcpus: u32)
    ensures
        exists|
            buffers: nat,
            connections: nat,
            log_buffers: nat,
            processes: nat,
            helpers: nat,
        |
            {
                let mb = ram_bytes as int / 1_048_576;
                let pool: int = if vcpus < 6 {
                    16
                } else if vcpus > 85 {
                    256
                } else {
                    3 * vcpus
                };
                &&& entries(tuning_boot_text(ram_bytes, vcpus)) == #[trigger] boot_entries(
                    buffers,
                    connections,
                    log_buffers,
                    processes,
                    helpers,
                )
                &&& buffers >= 128 && mb < 4 * (buffers + 1) && (buffers == 128 || 4 * buffers <= mb)
                &&& 1 <= log_buffers <= 16
                &&& log_buffers == 1 || 32 * log_buffers <= buffers
                &&& log_buffers == 16 || buffers < 32 * (log_buffers + 1)
                &&& connections >= 100 && connections >= pool + 10
                &&& connections == 100 || connections <= pool + 2 * vcpus + 10
                &&& connections == 100 || connections == pool + 10 || 50 * connections <= mb
                &&& connections >= pool + 2 * vcpus + 10 || mb < 50 * (connections + 1)
                &&& processes >= 8 && processes >= vcpus + 4
                &&& processes == 8 || processes == vcpus + 4
                &&& helpers >= 1 && helpers >= vcpus && (helpers == 1 || helpers == vcpus)
            },
{
    let buffers = shared_buffers(ram_bytes);
    lemma_boot_entries(ram_bytes, vcpus);
    let used = boot_entries(
        buffers as nat,
        max_connections(ram_bytes, vcpus) as nat,
        clamped(buffers / 32, 1, 16) as nat,
        larger(vcpus + 4, 8) as nat,
        larger(vcpus as int, 1) as nat,
    );
    assert(entries(tuning_boot_text(ram_bytes, vcpus)) == used);
}

// ---------------------------------------------------------------------------
// Durability.
// ---------------------------------------------------------------------------
/// Whether a text is the line that sets a key to a value.
spec fn is_line_of(c: Seq<char>, k: Seq<char>, v: Seq<char>) -> bool {
    &&& is_key(k)
    &&& free(k, '\n')
    &&& free(v, '\n')
    &&& trim(v) == v
    &&& c == (k + " = "@ + v).push('\n')
}

proof fn lemma_wal_sink_conf()
    ensures
        is_remark("# Generated by beyond-pg when BEYOND_PG_WAL_SINK is set.\n"@),
        is_remark("# Commits wait for WAL acknowledgment from the WAL sink before returning.\n"@),
        is_line_of("synchronous_commit = remote_write\n"@, "synchronous_commit"@, "remote_write"@),
        is_line_of("synchronous_standby_names = 'wal_sink'\n"@, "synchronous_standby_names"@, "'wal_sink'"@),
        WAL_SINK_CONF@ == "# Generated by beyond-pg when BEYOND_PG_WAL_SINK is set.\n"@ + "# Commits wait for WAL acknowledgment from the WAL sink before returning.\n"@ + "synchronous_commit = remote_write\n"@ + "synchronous_standby_names = 'wal_sink'\n"@,
{
    assert(is_remark("# Generated by beyond-pg when BEYOND_PG_WAL_SINK is set.\n"@)) by {
        reveal_strlit("# Generated by beyond-pg when BEYOND_PG_WAL_SINK is set.\n");
    }
    assert(is_remark("# Commits wait for WAL acknowledgment from the WAL sink before returning.\n"@)) by {
        reveal_strlit("# Commits wait for WAL acknowledgment from the WAL sink before returning.\n");
    }
    assert(is_line_of("synchronous_commit = remote_write\n"@, "synchronous_commit"@, "remote_write"@)) by {
        reveal_strlit("synchronous_commit = remote_write\n");
        reveal_strlit("synchronous_commit");
        reveal_strlit("remote_write");
        reveal_strlit(" = ");
        assert("synchronous_commit = remote_write\n"@ =~= ("synchronous_commit"@ + " = "@ + "remote_write"@).push('\n'));
        lemma_trim_visible("remote_write"@);
    }
    assert(is_line_of("synchronous_standby_names = 'wal_sink'\n"@, "synchronous_standby_names"@, "'wal_sink'"@)) by {
        reveal_strlit("synchronous_standby_names = 'wal_sink'\n");
        reveal_strlit("synchronous_standby_names");
        reveal_strlit("'wal_sink'");
        reveal_strlit(" = ");
        assert("synchronous_standby_names = 'wal_sink'\n"@ =~= ("synchronous_standby_names"@ + " = "@ + "'wal_sink'"@).push('\n'));
        lemma_trim_visible("'wal_sink'"@);
    }
    reveal_strlit("# Generated by beyond-pg when BEYOND_PG_WAL_SINK is set.\n\
     # Commits wait for WAL acknowledgment from the WAL sink before returning.\n\
     synchronous_commit = remote_write\n\
     synchronous_standby_names = 'wal_sink'\n");
    reveal_strlit("# Generated by beyond-pg when BEYOND_PG_WAL_SINK is set.\n");
    reveal_strlit("# Commits wait for WAL acknowledgment from the WAL sink before returning.\n");
    reveal_strlit("synchronous_commit = remote_write\n");
    reveal_strlit("synchronous_standby_names = 'wal_sink'\n");
    assert(WAL_SINK_CONF@ =~= "# Generated by beyond-pg when BEYOND_PG_WAL_SINK is set.\n"@ + "# Commits wait for WAL acknowledgment from the WAL sink before returning.\n"@ + "synchronous_commit = remote_write\n"@ + "synchronous_standby_names = 'wal_sink'\n"@);
}

/// The file for a node with a sink makes commits wait until the sink has written them.
pub proof fn law_sink_file_makes_commits_wait()
    ensures
        entries(WAL_SINK_CONF@) == seq![
            ("synchronous_commit"@, "remote_write"@),
            ("synchronous_standby_names"@, "'wal_sink'"@),
        ],
{
    let t0 = Seq::<char>::empty();
    lemma_no_entries();
    lemma_wal_sink_conf();
    let t1 = t0 + "# Generated by beyond-pg when BEYOND_PG_WAL_SINK is set.\n"@;
    lemma_no_entry(t0, "# Generated by beyond-pg when BEYOND_PG_WAL_SINK is set.\n"@);
    let t2 = t1 + "# Commits wait for WAL acknowledgment from the WAL sink before returning.\n"@;
    lemma_no_entry(t1, "# Commits wait for WAL acknowledgment from the WAL sink before returning.\n"@);
    let t3 = t2 + "synchronous_commit = remote_write\n"@;
    lemma_entry(t2, "synchronous_commit"@, "remote_write"@, "synchronous_commit = remote_write\n"@);
    let t4 = t3 + "synchronous_standby_names = 'wal_sink'\n"@;
    lemma_entry(t3, "synchronous_standby_names"@, "'wal_sink'"@, "synchronous_standby_names = 'wal_sink'\n"@);
    assert(t1 =~= "# Generated by beyond-pg when BEYOND_PG_WAL_SINK is set.\n"@);
    assert(entries(t4) =~= seq![
        ("synchronous_commit"@, "remote_write"@),
        ("synchronous_standby_names"@, "'wal_sink'"@),
    ]);
}

#[verifier::rlimit(60)]
proof fn lemma_durability_conf_ephemeral()
    ensures
        is_remark("# Generated by beyond-pg. Present only on ephemeral volumes.\n"@),
        is_remark("# synchronous_commit=off gives 5-10x faster commits; ~10ms data-loss\n"@),
        is_remark("# window on crash is irrelevant on a throwaway volume.\n"@),
        is_line_of("synchronous_commit = off\n"@, "synchronous_commit"@, "off"@),
        is_remark("# Throttle autovacuum on ephemeral/fork volumes. Measured on PG18-on-GlideFS\n"@),
        is_remark("# (bench/glidefs-pg): aggressive autovacuum on an idle fork wrote 306 MB of CoW\n"@),
        is_remark("# divergence in 90s vs 0.1 MB throttled (~2240x). A throwaway volume is gone\n"@),
        is_remark("# before bloat matters, but every vacuumed page is a new block GlideFS uploads.\n"@),
        is_remark("# Wraparound protection still runs (autovacuum stays on). Durable primaries keep\n"@),
        is_remark("# the aggressive default (00-beyond.conf) where bloat control wins.\n"@),
        is_line_of("autovacuum_vacuum_scale_factor = 0.4\n"@, "autovacuum_vacuum_scale_factor"@, "0.4"@),
        is_line_of("autovacuum_naptime = 5min\n"@, "autovacuum_naptime"@, "5min"@),
        is_line_of("autovacuum_vacuum_cost_delay = 20ms\n"@, "autovacuum_vacuum_cost_delay"@, "20ms"@),
        is_line_of("autovacuum_vacuum_cost_limit = 200\n"@, "autovacuum_vacuum_cost_limit"@, "200"@),
        DURABILITY_CONF_EPHEMERAL@ == "# Generated by beyond-pg. Present only on ephemeral volumes.\n"@ + "# synchronous_commit=off gives 5-10x faster commits; ~10ms data-loss\n"@ + "# window on crash is irrelevant on a throwaway volume.\n"@ + "synchronous_commit = off\n"@ + "# Throttle autovacuum on ephemeral/fork volumes. Measured on PG18-on-GlideFS\n"@ + "# (bench/glidefs-pg): aggressive autovacuum on an idle fork wrote 306 MB of CoW\n"@ + "# divergence in 90s vs 0.1 MB throttled (~2240x). A throwaway volume is gone\n"@ + "# before bloat matters, but every vacuumed page is a new block GlideFS uploads.\n"@ + "# Wraparound protection still runs (autovacuum stays on). Durable primaries keep\n"@ + "# the aggressive default (00-beyond.conf) where bloat control wins.\n"@ + "autovacuum_vacuum_scale_factor = 0.4\n"@ + "autovacuum_naptime = 5min\n"@ + "autovacuum_vacuum_cost_delay = 20ms\n"@ + "autovacuum_vacuum_cost_limit = 200\n"@,
{
    assert(is_remark("# Generated by beyond-pg. Present only on ephemeral volumes.\n"@)) by {
        reveal_strlit("# Generated by beyond-pg. Present only on ephemeral volumes.\n");
    }
    assert(is_remark("# synchronous_commit=off gives 5-10x faster commits; ~10ms data-loss\n"@)) by {
        reveal_strlit("# synchronous_commit=off gives 5-10x faster commits; ~10ms data-loss\n");
    }
    assert(is_remark("# window on crash is irrelevant on a throwaway volume.\n"@)) by {
        reveal_strlit("# window on crash is irrelevant on a throwaway volume.\n");
    }
    assert(is_line_of("synchronous_commit = off\n"@, "synchronous_commit"@, "off"@)) by {
        reveal_strlit("synchronous_commit = off\n");
        reveal_strlit("synchronous_commit");
        reveal_strlit("off");
        reveal_strlit(" = ");
        assert("synchronous_commit = off\n"@ =~= ("synchronous_commit"@ + " = "@ + "off"@).push('\n'));
        lemma_trim_visible("off"@);
    }
    assert(is_remark("# Throttle autovacuum on ephemeral/fork volumes. Measured on PG18-on-GlideFS\n"@)) by {
        reveal_strlit("# Throttle autovacuum on ephemeral/fork volumes. Measured on PG18-on-GlideFS\n");
    }
    assert(is_remark("# (bench/glidefs-pg): aggressive autovacuum on an idle fork wrote 306 MB of CoW\n"@)) by {
        reveal_strlit("# (bench/glidefs-pg): aggressive autovacuum on an idle fork wrote 306 MB of CoW\n");
    }
    assert(is_remark("# divergence in 90s vs 0.1 MB throttled (~2240x). A throwaway volume is gone\n"@)) by {
        reveal_strlit("# divergence in 90s vs 0.1 MB throttled (~2240x). A throwaway volume is gone\n");
    }
    assert(is_remark("# before bloat matters, but every vacuumed page is a new block GlideFS uploads.\n"@)) by {
        reveal_strlit("# before bloat matters, but every vacuumed page is a new block GlideFS uploads.\n");
    }
    assert(is_remark("# Wraparound protection still runs (autovacuum stays on). Durable primaries keep\n"@)) by {
        reveal_strlit("# Wraparound protection still runs (autovacuum stays on). Durable primaries keep\n");
    }
    assert(is_remark("# the aggressive default (00-beyond.conf) where bloat control wins.\n"@)) by {
        reveal_strlit("# the aggressive default (00-beyond.conf) where bloat control wins.\n");
    }
    assert(is_line_of("autovacuum_vacuum_scale_factor = 0.4\n"@, "autovacuum_vacuum_scale_factor"@, "0.4"@)) by {
        reveal_strlit("autovacuum_vacuum_scale_factor = 0.4\n");
        reveal_strlit("autovacuum_vacuum_scale_factor");
        reveal_strlit("0.4");
        reveal_strlit(" = ");
        assert("autovacuum_vacuum_scale_factor = 0.4\n"@ =~= ("autovacuum_vacuum_scale_factor"@ + " = "@ + "0.4"@).push('\n'));
        lemma_trim_visible("0.4"@);
    }
    assert(is_line_of("autovacuum_naptime = 5min\n"@, "autovacuum_naptime"@, "5min"@)) by {
        reveal_strlit("autovacuum_naptime = 5min\n");
        reveal_strlit("autovacuum_naptime");
        reveal_strlit("5min");
        reveal_strlit(" = ");
        assert("autovacuum_naptime = 5min\n"@ =~= ("autovacuum_naptime"@ + " = "@ + "5min"@).push('\n'));
        lemma_trim_visible("5min"@);
    }
    assert(is_line_of("autovacuum_vacuum_cost_delay = 20ms\n"@, "autovacuum_vacuum_cost_delay"@, "20ms"@)) by {
        reveal_strlit("autovacuum_vacuum_cost_delay = 20ms\n");
        reveal_strlit("autovacuum_vacuum_cost_delay");
        reveal_strlit("20ms");
        reveal_strlit(" = ");
        assert("autovacuum_vacuum_cost_delay = 20ms\n"@ =~= ("autovacuum_vacuum_cost_delay"@ + " = "@ + "20ms"@).push('\n'));
        lemma_trim_visible("20ms"@);
    }
    assert(is_line_of("autovacuum_vacuum_cost_limit = 200\n"@, "autovacuum_vacuum_cost_limit"@, "200"@)) by {
        reveal_strlit("autovacuum_vacuum_cost_limit = 200\n");
        reveal_strlit("autovacuum_vacuum_cost_limit");
        reveal_strlit("200");
        reveal_strlit(" = ");
        assert("autovacuum_vacuum_cost_limit = 200\n"@ =~= ("autovacuum_vacuum_cost_limit"@ + " = "@ + "200"@).push('\n'));
        lemma_trim_visible("200"@);
    }
    reveal_strlit("# Generated by beyond-pg. Present only on ephemeral volumes.\n\
     # synchronous_commit=off gives 5-10x faster commits; ~10ms data-loss\n\
     # window on crash is irrelevant on a throwaway volume.\n\
     synchronous_commit = off\n\
     # Throttle autovacuum on ephemeral/fork volumes. Measured on PG18-on-GlideFS\n\
     # (bench/glidefs-pg): aggressive autovacuum on an idle fork wrote 306 MB of CoW\n\
     # divergence in 90s vs 0.1 MB throttled (~2240x). A throwaway volume is gone\n\
     # before bloat matters, but every vacuumed page is a new block GlideFS uploads.\n\
     # Wraparound protection still runs (autovacuum stays on). Durable primaries keep\n\
     # the aggressive default (00-beyond.conf) where bloat control wins.\n\
     autovacuum_vacuum_scale_factor = 0.4\n\
     autovacuum_naptime = 5min\n\
     autovacuum_vacuum_cost_delay = 20ms\n\
     autovacuum_vacuum_cost_limit = 200\n");
    reveal_strlit("# Generated by beyond-pg. Present only on ephemeral volumes.\n");
    reveal_strlit("# synchronous_commit=off gives 5-10x faster commits; ~10ms data-loss\n");
    reveal_strlit("# window on crash is irrelevant on a throwaway volume.\n");
    reveal_strlit("synchronous_commit = off\n");
    reveal_strlit("# Throttle autovacuum on ephemeral/fork volumes. Measured on PG18-on-GlideFS\n");
    reveal_strlit("# (bench/glidefs-pg): aggressive autovacuum on an idle fork wrote 306 MB of CoW\n");
    reveal_strlit("# divergence in 90s vs 0.1 MB throttled (~2240x). A throwaway volume is gone\n");
    reveal_strlit("# before bloat matters, but every vacuumed page is a new block GlideFS uploads.\n");
    reveal_strlit("# Wraparound protection still runs (autovacuum stays on). Durable primaries keep\n");
    reveal_strlit("# the aggressive default (00-beyond.conf) where bloat control wins.\n");
    reveal_strlit("autovacuum_vacuum_scale_factor = 0.4\n");
    reveal_strlit("autovacuum_naptime = 5min\n");
    reveal_strlit("autovacuum_vacuum_cost_delay = 20ms\n");
    reveal_strlit("autovacuum_vacuum_cost_limit = 200\n");
    assert(DURABILITY_CONF_EPHEMERAL@ =~= "# Generated by beyond-pg. Present only on ephemeral volumes.\n"@ + "# synchronous_commit=off gives 5-10x faster commits; ~10ms data-loss\n"@ + "# window on crash is irrelevant on a throwaway volume.\n"@ + "synchronous_commit = off\n"@ + "# Throttle autovacuum on ephemeral/fork volumes. Measured on PG18-on-GlideFS\n"@ + "# (bench/glidefs-pg): aggressive autovacuum on an idle fork wrote 306 MB of CoW\n"@ + "# divergence in 90s vs 0.1 MB throttled (~2240x). A throwaway volume is gone\n"@ + "# before bloat matters, but every vacuumed page is a new block GlideFS uploads.\n"@ + "# Wraparound protection still runs (autovacuum stays on). Durable primaries keep\n"@ + "# the aggressive default (00-beyond.conf) where bloat control wins.\n"@ + "autovacuum_vacuum_scale_factor = 0.4\n"@ + "autovacuum_naptime = 5min\n"@ + "autovacuum_vacuum_cost_delay = 20ms\n"@ + "autovacuum_vacuum_cost_limit = 200\n"@);
}

/// The file for a volume that is thrown away lets commits go without the disk, and vacuums little.
#[verifier::rlimit(60)]
pub proof fn law_throwaway_file_lets_commits_go()
    ensures
        entries(DURABILITY_CONF_EPHEMERAL@) == seq![
            ("synchronous_commit"@, "off"@),
            ("autovacuum_vacuum_scale_factor"@, "0.4"@),
            ("autovacuum_naptime"@, "5min"@),
            ("autovacuum_vacuum_cost_delay"@, "20ms"@),
            ("autovacuum_vacuum_cost_limit"@, "200"@),
        ],
{
    let t0 = Seq::<char>::empty();
    lemma_no_entries();
    lemma_durability_conf_ephemeral();
    let t1 = t0 + "# Generated by beyond-pg. Present only on ephemeral volumes.\n"@;
    lemma_no_entry(t0, "# Generated by beyond-pg. Present only on ephemeral volumes.\n"@);
    let t2 = t1 + "# synchronous_commit=off gives 5-10x faster commits; ~10ms data-loss\n"@;
    lemma_no_entry(t1, "# synchronous_commit=off gives 5-10x faster commits; ~10ms data-loss\n"@);
    let t3 = t2 + "# window on crash is irrelevant on a throwaway volume.\n"@;
    lemma_no_entry(t2, "# window on crash is irrelevant on a throwaway volume.\n"@);
    let t4 = t3 + "synchronous_commit = off\n"@;
    lemma_entry(t3, "synchronous_commit"@, "off"@, "synchronous_commit = off\n"@);
    let t5 = t4 + "# Throttle autovacuum on ephemeral/fork volumes. Measured on PG18-on-GlideFS\n"@;
    lemma_no_entry(t4, "# Throttle autovacuum on ephemeral/fork volumes. Measured on PG18-on-GlideFS\n"@);
    let t6 = t5 + "# (bench/glidefs-pg): aggressive autovacuum on an idle fork wrote 306 MB of CoW\n"@;
    lemma_no_entry(t5, "# (bench/glidefs-pg): aggressive autovacuum on an idle fork wrote 306 MB of CoW\n"@);
    let t7 = t6 + "# divergence in 90s vs 0.1 MB throttled (~2240x). A throwaway volume is gone\n"@;
    lemma_no_entry(t6, "# divergence in 90s vs 0.1 MB throttled (~2240x). A throwaway volume is gone\n"@);
    let t8 = t7 + "# before bloat matters, but every vacuumed page is a new block GlideFS uploads.\n"@;
    lemma_no_entry(t7, "# before bloat matters, but every vacuumed page is a new block GlideFS uploads.\n"@);
    let t9 = t8 + "# Wraparound protection still runs (autovacuum stays on). Durable primaries keep\n"@;
    lemma_no_entry(t8, "# Wraparound protection still runs (autovacuum stays on). Durable primaries keep\n"@);
    let t10 = t9 + "# the aggressive default (00-beyond.conf) where bloat control wins.\n"@;
    lemma_no_entry(t9, "# the aggressive default (00-beyond.conf) where bloat control wins.\n"@);
    let t11 = t10 + "autovacuum_vacuum_scale_factor = 0.4\n"@;
    lemma_entry(t10, "autovacuum_vacuum_scale_factor"@, "0.4"@, "autovacuum_vacuum_scale_factor = 0.4\n"@);
    let t12 = t11 + "autovacuum_naptime = 5min\n"@;
    lemma_entry(t11, "autovacuum_naptime"@, "5min"@, "autovacuum_naptime = 5min\n"@);
    let t13 = t12 + "autovacuum_vacuum_cost_delay = 20ms\n"@;
    lemma_entry(t12, "autovacuum_vacuum_cost_delay"@, "20ms"@, "autovacuum_vacuum_cost_delay = 20ms\n"@);
    let t14 = t13 + "autovacuum_vacuum_cost_limit = 200\n"@;
    lemma_entry(t13, "autovacuum_vacuum_cost_limit"@, "200"@, "autovacuum_vacuum_cost_limit = 200\n"@);
    assert(t1 =~= "# Generated by beyond-pg. Present only on ephemeral volumes.\n"@);
    assert(entries(t14) =~= seq![
        ("synchronous_commit"@, "off"@),
        ("autovacuum_vacuum_scale_factor"@, "0.4"@),
        ("autovacuum_naptime"@, "5min"@),
        ("autovacuum_vacuum_cost_delay"@, "20ms"@),
        ("autovacuum_vacuum_cost_limit"@, "200"@),
    ]);
}

// ---------------------------------------------------------------------------
// Recovery, replication, and the certificate.
// ---------------------------------------------------------------------------
proof fn lemma_recovery_keys()
    ensures
        is_key("restore_command"@) && free("restore_command"@, '\n'),
        is_key("recovery_target_time"@) && free("recovery_target_time"@, '\n'),
        is_key("recovery_target_action"@) && free("recovery_target_action"@, '\n'),
        is_key("recovery_target_inclusive"@) && free("recovery_target_inclusive"@, '\n'),
        is_key("primary_conninfo"@) && free("primary_conninfo"@, '\n'),
        is_key("recovery_target_timeline"@) && free("recovery_target_timeline"@, '\n'),
        is_key("ssl_cert_file"@) && free("ssl_cert_file"@, '\n'),
        is_key("ssl_key_file"@) && free("ssl_key_file"@, '\n'),
        is_key("ssl_ca_file"@) && free("ssl_ca_file"@, '\n'),
{
    assert(is_key("restore_command"@) && free("restore_command"@, '\n')) by {
        reveal_strlit("restore_command");
    }
    assert(is_key("recovery_target_time"@) && free("recovery_target_time"@, '\n')) by {
        reveal_strlit("recovery_target_time");
    }
    assert(is_key("recovery_target_action"@) && free("recovery_target_action"@, '\n')) by {
        reveal_strlit("recovery_target_action");
    }
    assert(is_key("recovery_target_inclusive"@) && free("recovery_target_inclusive"@, '\n')) by {
        reveal_strlit("recovery_target_inclusive");
    }
    assert(is_key("primary_conninfo"@) && free("primary_conninfo"@, '\n')) by {
        reveal_strlit("primary_conninfo");
    }
    assert(is_key("recovery_target_timeline"@) && free("recovery_target_timeline"@, '\n')) by {
        reveal_strlit("recovery_target_timeline");
    }
    assert(is_key("ssl_cert_file"@) && free("ssl_cert_file"@, '\n')) by {
        reveal_strlit("ssl_cert_file");
    }
    assert(is_key("ssl_key_file"@) && free("ssl_key_file"@, '\n')) by {
        reveal_strlit("ssl_key_file");
    }
    assert(is_key("ssl_ca_file"@) && free("ssl_ca_file"@, '\n')) by {
        reveal_strlit("ssl_ca_file");
    }
}

/// Doubling quotes brings in no line feed.
proof fn lemma_doubled_free(s: Seq<char>)
    requires
        free(s, '\n'),
    ensures
        free(double_quotes(s), '\n'),
    decreases s.len(),
{
    if s.len() > 0 {
        let init = s.drop_last();
        assert forall|j: int| 0 <= j < init.len() implies #[trigger] init[j] != '\n' by {
            assert(init[j] == s[j]);
        }
        lemma_doubled_free(init);
        assert(s[s.len() - 1] != '\n');
    }
}

/// A value between quotes has nothing to trim.
proof fn lemma_quoted(v: Seq<char>)
    requires
        free(v, '\n'),
    ensures
        free("'"@ + v + "'"@, '\n'),
        trim("'"@ + v + "'"@) == "'"@ + v + "'"@,
{
    reveal_strlit("'");
    let q = "'"@ + v + "'"@;
    assert forall|j: int| 0 <= j < q.len() implies #[trigger] q[j] != '\n' by {
        if 0 < j < q.len() - 1 {
            assert(q[j] == v[j - 1]);
        }
    }
    assert(q[0] == '\'' && q.last() == '\'');
    assert(!is_white('\''));
    lemma_trim_visible(q);
}

/// The head of a generated file assigns nothing.
proof fn lemma_generated_head()
    ensures
        closed(GENERATED_HEAD@),
        entries(GENERATED_HEAD@) == Seq::<(Seq<char>, Seq<char>)>::empty(),
{
    let a = "# Generated by beyond-pg. Do not edit — overwritten on every boot.\n"@;
    reveal_strlit("# Generated by beyond-pg. Do not edit — overwritten on every boot.\n\n");
    reveal_strlit("# Generated by beyond-pg. Do not edit — overwritten on every boot.\n");
    reveal_strlit("\n");
    let none = Seq::<char>::empty();
    lemma_no_entries();
    lemma_no_entry(none, a);
    lemma_no_entry(none + a, "\n"@);
    assert(GENERATED_HEAD@ =~= none + a + "\n"@);
}

/// What settings for recovery say of the end of it.
pub open spec fn target_entries(time: Option<Seq<char>>) -> Seq<(Seq<char>, Seq<char>)> {
    match time {
        Some(t) => seq![
            ("recovery_target_time"@, "'"@ + double_quotes(t) + "'"@),
            ("recovery_target_action"@, "promote"@),
            ("recovery_target_inclusive"@, "true"@),
        ],
        None => seq![],
    }
}

#[verifier::rlimit(60)]
proof fn lemma_target_entries(t: Seq<char>, time: Option<Seq<char>>)
    requires
        closed(t),
        time matches Some(x) ==> free(x, '\n'),
    ensures
        closed(t + recovery_target_text(time)),
        entries(t + recovery_target_text(time)) == entries(t) + target_entries(time),
{
    lemma_recovery_keys();
    match time {
        Some(x) => {
            reveal_strlit("recovery_target_time = '");
            reveal_strlit("recovery_target_time");
            reveal_strlit(" = ");
            reveal_strlit("'");
            reveal_strlit("'\n");
            reveal_strlit("recovery_target_action = promote\n");
            reveal_strlit("recovery_target_action");
            reveal_strlit("promote");
            reveal_strlit("recovery_target_inclusive = true\n");
            reveal_strlit("recovery_target_inclusive");
            reveal_strlit("true");
            let d = double_quotes(x);
            let v = "'"@ + d + "'"@;
            lemma_doubled_free(x);
            lemma_quoted(d);
            let c1 = ("recovery_target_time"@ + " = "@ + v).push('\n');
            let c2 = "recovery_target_action = promote\n"@;
            let c3 = "recovery_target_inclusive = true\n"@;
            lemma_entry(t, "recovery_target_time"@, v, c1);
            assert(c2 =~= ("recovery_target_action"@ + " = "@ + "promote"@).push('\n'));
            lemma_trim_visible("promote"@);
            lemma_entry(t + c1, "recovery_target_action"@, "promote"@, c2);
            assert(c3 =~= ("recovery_target_inclusive"@ + " = "@ + "true"@).push('\n'));
            lemma_trim_visible("true"@);
            lemma_entry(t + c1 + c2, "recovery_target_inclusive"@, "true"@, c3);
            assert("recovery_target_time = '"@ + d + "'\n"@ =~= c1);
            assert(t + recovery_target_text(time) =~= t + c1 + c2 + c3);
            assert(entries(t + c1 + c2 + c3) =~= entries(t) + target_entries(time));
        },
        None => {
            assert(t + recovery_target_text(time) =~= t);
            assert(entries(t) + target_entries(time) =~= entries(t));
        },
    }
}

/// Recovery from a sink fetches each segment of the log from it by name, and recovery from an
/// archive copies it from there, both to the place that the server names. Where a time is given
/// recovery stops at it, what happened at that time included, and the server goes on as a primary.
/// Texts with line feeds cannot be told.
#[verifier::rlimit(60)]
pub proof fn law_recovery_restores_and_stops(from: Seq<char>, time: Option<Seq<char>>)
    requires
        free(from, '\n'),
        time matches Some(x) ==> free(x, '\n'),
    ensures
        entries(sink_recovery_text(from, time)) == seq![
            (
                "restore_command"@,
                "'curl -f -s "@ + trim_end_char(from, '/') + "/%f -o %p'"@,
            ),
        ] + target_entries(time),
        entries(pitr_text(from, time)) == seq![
            (
                "restore_command"@,
                "'aws s3 cp "@ + trim_end_char(from, '/') + "/%f %p --no-progress'"@,
            ),
        ] + target_entries(time),
{
    let x = trim_end_char(from, '/');
    lemma_trim_end_char_free(from);
    lemma_recovery_keys();
    lemma_generated_head();
    let head = GENERATED_HEAD@;
    let v = "'curl -f -s "@ + x + "/%f -o %p'"@;
    let w = "'aws s3 cp "@ + x + "/%f %p --no-progress'"@;
    lemma_commands(x);
    let c = ("restore_command"@ + " = "@ + v).push('\n');
    let d = ("restore_command"@ + " = "@ + w).push('\n');
    lemma_entry(head, "restore_command"@, v, c);
    lemma_entry(head, "restore_command"@, w, d);
    lemma_target_entries(head + c, time);
    lemma_target_entries(head + d, time);
    assert(sink_recovery_text(from, time) =~= head + c + recovery_target_text(time));
    assert(pitr_text(from, time) =~= head + d + recovery_target_text(time));
    assert(entries(head + c) =~= seq![("restore_command"@, v)]);
    assert(entries(head + d) =~= seq![("restore_command"@, w)]);
}

proof fn lemma_trim_end_char_free(s: Seq<char>)
    requires
        free(s, '\n'),
    ensures
        free(trim_end_char(s, '/'), '\n'),
    decreases s.len(),
{
    if s.len() > 0 && s.last() == '/' {
        let init = s.drop_last();
        assert forall|j: int| 0 <= j < init.len() implies #[trigger] init[j] != '\n' by {
            assert(init[j] == s[j]);
        }
        lemma_trim_end_char_free(init);
    }
}

#[verifier::rlimit(60)]
proof fn lemma_commands(x: Seq<char>)
    requires
        free(x, '\n'),
    ensures
        ({
            let v = "'curl -f -s "@ + x + "/%f -o %p'"@;
            let w = "'aws s3 cp "@ + x + "/%f %p --no-progress'"@;
            &&& free(v, '\n') && trim(v) == v
            &&& free(w, '\n') && trim(w) == w
            &&& ("restore_command"@ + " = "@ + v).push('\n') == "restore_command = 'curl -f -s "@ + x
                + "/%f -o %p'\n"@
            &&& ("restore_command"@ + " = "@ + w).push('\n') == "restore_command = 'aws s3 cp "@ + x
                + "/%f %p --no-progress'\n"@
        }),
{
    reveal_strlit("restore_command");
    reveal_strlit(" = ");
    reveal_strlit("'curl -f -s ");
    reveal_strlit("/%f -o %p'");
    reveal_strlit("/%f -o %p'\n");
    reveal_strlit("restore_command = 'curl -f -s ");
    reveal_strlit("'aws s3 cp ");
    reveal_strlit("/%f %p --no-progress'");
    reveal_strlit("/%f %p --no-progress'\n");
    reveal_strlit("restore_command = 'aws s3 cp ");
    let v = "'curl -f -s "@ + x + "/%f -o %p'"@;
    let w = "'aws s3 cp "@ + x + "/%f %p --no-progress'"@;
    let (a, b) = ("'curl -f -s "@.len() as int, "'aws s3 cp "@.len() as int);
    assert forall|j: int| 0 <= j < v.len() implies #[trigger] v[j] != '\n' by {
        if a <= j < a + x.len() {
            assert(v[j] == x[j - a]);
        } else if j >= a + x.len() {
            assert(v[j] == "/%f -o %p'"@[j - a - x.len()]);
        }
    }
    assert forall|j: int| 0 <= j < w.len() implies #[trigger] w[j] != '\n' by {
        if b <= j < b + x.len() {
            assert(w[j] == x[j - b]);
        } else if j >= b + x.len() {
            assert(w[j] == "/%f %p --no-progress'"@[j - b - x.len()]);
        }
    }
    assert(v[0] == '\'' && v.last() == '\'' && w[0] == '\'' && w.last() == '\'');
    assert(!is_white('\''));
    lemma_trim_visible(v);
    lemma_trim_visible(w);
    assert(("restore_command"@ + " = "@ + v).push('\n') =~= "restore_command = 'curl -f -s "@ + x
        + "/%f -o %p'\n"@);
    assert(("restore_command"@ + " = "@ + w).push('\n') =~= "restore_command = 'aws s3 cp "@ + x
        + "/%f %p --no-progress'\n"@);
}

/// A replica is told where its primary is, that it follows the latest timeline, and, where there is
/// a sink, to fetch from it what the stream no longer has.
#[verifier::rlimit(60)]
pub proof fn law_replica_follows_its_primary(conninfo: Seq<char>, sink: Option<Seq<char>>)
    requires
        free(conninfo, '\n'),
        sink matches Some(x) ==> free(x, '\n'),
    ensures
        entries(replica_text(conninfo, sink)) == seq![
            ("primary_conninfo"@, "'"@ + double_quotes(conninfo) + "'"@),
            ("recovery_target_timeline"@, "'latest'"@),
        ] + (match sink {
            Some(x) => seq![("restore_command"@, "'curl -f -s "@ + x + "/%f -o %p'"@)],
            None => seq![],
        }),
{
    lemma_recovery_keys();
    lemma_generated_head();
    let head = GENERATED_HEAD@;
    let d = double_quotes(conninfo);
    let v = "'"@ + d + "'"@;
    lemma_doubled_free(conninfo);
    lemma_quoted(d);
    let c1 = ("primary_conninfo"@ + " = "@ + v).push('\n');
    let c2 = "recovery_target_timeline = 'latest'\n"@;
    reveal_strlit("primary_conninfo");
    reveal_strlit("primary_conninfo = '");
    reveal_strlit(" = ");
    reveal_strlit("'");
    reveal_strlit("'\n");
    reveal_strlit("recovery_target_timeline = 'latest'\n");
    reveal_strlit("recovery_target_timeline");
    reveal_strlit("'latest'");
    assert("primary_conninfo = '"@ + d + "'\n"@ =~= c1);
    lemma_entry(head, "primary_conninfo"@, v, c1);
    assert(c2 =~= ("recovery_target_timeline"@ + " = "@ + "'latest'"@).push('\n'));
    lemma_trim_visible("'latest'"@);
    lemma_entry(head + c1, "recovery_target_timeline"@, "'latest'"@, c2);
    let t = head + c1 + c2;
    assert(entries(t) =~= seq![
        ("primary_conninfo"@, v),
        ("recovery_target_timeline"@, "'latest'"@),
    ]);
    match sink {
        Some(x) => {
            let w = "'curl -f -s "@ + x + "/%f -o %p'"@;
            lemma_commands(x);
            let c3 = ("restore_command"@ + " = "@ + w).push('\n');
            lemma_entry(t, "restore_command"@, w, c3);
            assert(replica_text(conninfo, sink) =~= t + c3);
            assert(entries(t + c3) =~= entries(t) + seq![("restore_command"@, w)]);
        },
        None => {
            assert(replica_text(conninfo, sink) =~= t);
            assert(entries(t) + Seq::<(Seq<char>, Seq<char>)>::empty() =~= entries(t));
        },
    }
}

/// The server is pointed at the certificate and the key in use, and at a CA exactly if there is
/// one.
#[verifier::rlimit(60)]
pub proof fn law_server_uses_the_certificate(tls: TlsFiles)
    requires
        free(tls.cert, '\n'),
        free(tls.key, '\n'),
        tls.ca matches Some(x) ==> free(x, '\n'),
    ensures
        entries(tls_conf_text(tls)) == seq![
            ("ssl_cert_file"@, "'"@ + tls.cert + "'"@),
            ("ssl_key_file"@, "'"@ + tls.key + "'"@),
        ] + (match tls.ca {
            Some(x) => seq![("ssl_ca_file"@, "'"@ + x + "'"@)],
            None => seq![],
        }),
{
    lemma_recovery_keys();
    let l1 = "# Generated by beyond-pg at boot. Do not edit — overwritten on every boot.\n"@;
    let l2 = "# Overrides ssl_cert_file / ssl_key_file from 00-beyond.conf.\n"@;
    let head = "# Generated by beyond-pg at boot. Do not edit — overwritten on every boot.\n\
     # Overrides ssl_cert_file / ssl_key_file from 00-beyond.conf.\n\n"@;
    let none = Seq::<char>::empty();
    lemma_no_entries();
    assert(closed(head) && entries(head) == entries(none)) by {
        reveal_strlit("# Generated by beyond-pg at boot. Do not edit — overwritten on every boot.\n");
        reveal_strlit("# Overrides ssl_cert_file / ssl_key_file from 00-beyond.conf.\n");
        reveal_strlit("\n");
        reveal_strlit(
            "# Generated by beyond-pg at boot. Do not edit — overwritten on every boot.\n\
     # Overrides ssl_cert_file / ssl_key_file from 00-beyond.conf.\n\n",
        );
        lemma_no_entry(none, l1);
        lemma_no_entry(none + l1, l2);
        lemma_no_entry(none + l1 + l2, "\n"@);
        assert(head =~= none + l1 + l2 + "\n"@);
    }
    lemma_quoted(tls.cert);
    lemma_quoted(tls.key);
    let c1 = ("ssl_cert_file"@ + " = "@ + ("'"@ + tls.cert + "'"@)).push('\n');
    let c2 = ("ssl_key_file"@ + " = "@ + ("'"@ + tls.key + "'"@)).push('\n');
    lemma_entry(head, "ssl_cert_file"@, "'"@ + tls.cert + "'"@, c1);
    lemma_entry(head + c1, "ssl_key_file"@, "'"@ + tls.key + "'"@, c2);
    lemma_ssl_lines(tls.cert, tls.key);
    let t = head + c1 + c2;
    let files = head + "ssl_cert_file = '"@ + tls.cert + "'\n"@ + "ssl_key_file = '"@ + tls.key
        + "'\n"@;
    assert(files =~= t);
    assert(entries(t) =~= seq![
        ("ssl_cert_file"@, "'"@ + tls.cert + "'"@),
        ("ssl_key_file"@, "'"@ + tls.key + "'"@),
    ]);
    match tls.ca {
        Some(x) => {
            lemma_quoted(x);
            let c3 = ("ssl_ca_file"@ + " = "@ + ("'"@ + x + "'"@)).push('\n');
            lemma_entry(t, "ssl_ca_file"@, "'"@ + x + "'"@, c3);
            lemma_ca_line(x);
            assert(tls_conf_text(tls) =~= t + c3);
            assert(entries(t + c3) =~= entries(t) + seq![("ssl_ca_file"@, "'"@ + x + "'"@)]);
        },
        None => {
            assert(entries(t) + Seq::<(Seq<char>, Seq<char>)>::empty() =~= entries(t));
        },
    }
}

proof fn lemma_ssl_lines(cert: Seq<char>, key: Seq<char>)
    ensures
        ("ssl_cert_file"@ + " = "@ + ("'"@ + cert + "'"@)).push('\n') == "ssl_cert_file = '"@ + cert
            + "'\n"@,
        ("ssl_key_file"@ + " = "@ + ("'"@ + key + "'"@)).push('\n') == "ssl_key_file = '"@ + key
            + "'\n"@,
{
    reveal_strlit("ssl_cert_file");
    reveal_strlit("ssl_cert_file = '");
    reveal_strlit("ssl_key_file");
    reveal_strlit("ssl_key_file = '");
    reveal_strlit(" = ");
    reveal_strlit("'");
    reveal_strlit("'\n");
    assert(("ssl_cert_file"@ + " = "@ + ("'"@ + cert + "'"@)).push('\n') =~= "ssl_cert_file = '"@
        + cert + "'\n"@);
    assert(("ssl_key_file"@ + " = "@ + ("'"@ + key + "'"@)).push('\n') =~= "ssl_key_file = '"@ + key
        + "'\n"@);
}

proof fn lemma_ca_line(ca: Seq<char>)
    ensures
        ("ssl_ca_file"@ + " = "@ + ("'"@ + ca + "'"@)).push('\n') == "ssl_ca_file = '"@ + ca
            + "'\n"@,
{
    reveal_strlit("ssl_ca_file");
    reveal_strlit("ssl_ca_file = '");
    reveal_strlit(" = ");
    reveal_strlit("'");
    reveal_strlit("'\n");
    assert(("ssl_ca_file"@ + " = "@ + ("'"@ + ca + "'"@)).push('\n') =~= "ssl_ca_file = '"@ + ca
        + "'\n"@);
}

// ---------------------------------------------------------------------------
// The pooler.
// ---------------------------------------------------------------------------
/// What the generated part of the pooler's configuration sets. A certificate without a CA is its
/// own.
pub open spec fn pooler_entries(pool: nat, clients: nat, tls: TlsFiles) -> Seq<
    (Seq<char>, Seq<char>),
> {
    seq![
        ("default_pool_size"@, decimal(pool)),
        ("max_client_conn"@, decimal(clients)),
        ("so_reuseport"@, "1"@),
        ("client_tls_sslmode"@, "allow"@),
        ("client_tls_cert_file"@, trim(tls.cert)),
        ("client_tls_key_file"@, trim(tls.key)),
        (
            "client_tls_ca_file"@,
            trim(
                match tls.ca {
                    Some(x) => x,
                    None => tls.cert,
                },
            ),
        ),
    ]
}

proof fn lemma_pooler_values()
    ensures
        is_line_of("so_reuseport = 1\n"@, "so_reuseport"@, "1"@),
        is_line_of("client_tls_sslmode = allow\n"@, "client_tls_sslmode"@, "allow"@),
{
    assert(is_line_of("so_reuseport = 1\n"@, "so_reuseport"@, "1"@)) by {
        reveal_strlit("so_reuseport = 1\n");
        reveal_strlit("so_reuseport");
        reveal_strlit("1");
        reveal_strlit(" = ");
        assert("so_reuseport = 1\n"@ =~= ("so_reuseport"@ + " = "@ + "1"@).push('\n'));
        lemma_trim_visible("1"@);
    }
    assert(is_line_of("client_tls_sslmode = allow\n"@, "client_tls_sslmode"@, "allow"@)) by {
        reveal_strlit("client_tls_sslmode = allow\n");
        reveal_strlit("client_tls_sslmode");
        reveal_strlit("allow");
        reveal_strlit(" = ");
        assert("client_tls_sslmode = allow\n"@ =~= ("client_tls_sslmode"@ + " = "@ + "allow"@).push(
            '\n',
        ));
        lemma_trim_visible("allow"@);
    }
}

/// The pooler's configuration sets what its fixed part sets, and behind that, in this order: a pool
/// of three connections per CPU, from 16 to 256; 25 clients for each of those, but at least 200, and
/// no more than four per megabyte of memory beyond that; that workers share the port; that clients
/// may use TLS; and the files of the certificate, with the certificate as its own CA where there is
/// none.
#[verifier::rlimit(60)]
pub proof fn law_pooler_is_sized(tls: TlsFiles, ram_bytes: u64, vcpus: u32)
    requires
        free(tls.cert, '\n'),
        free(tls.key, '\n'),
        tls.ca matches Some(x) ==> free(x, '\n'),
    ensures
        exists|pool: nat, clients: nat|
            {
                let mb = ram_bytes as int / 1_048_576;
                &&& entries(pgbouncer_ini_text(tls, ram_bytes, vcpus)) == entries(
                    PGBOUNCER_INI_BASE@,
                ) + #[trigger] pooler_entries(pool, clients, tls)
                &&& 16 <= pool <= 256
                &&& pool == 16 || pool <= 3 * vcpus
                &&& pool == 256 || pool >= 3 * vcpus
                &&& 200 <= clients <= 25 * pool
                &&& clients == 200 || clients <= 4 * mb
                &&& clients == 25 * pool || clients >= 4 * mb
            },
{
    let base = PGBOUNCER_INI_BASE@;
    let ca = pooler_ca(tls);
    let pool = pool_size(vcpus) as nat;
    let clients = max_client_conn(ram_bytes, vcpus) as nat;
    lemma_base_sets_no_ca();
    lemma_pooler_lines();
    lemma_pooler_values();
    lemma_units();
    let e0 = entries(base);
    let t1 = base + "\n"@;
    lemma_no_entry(base, "\n"@);
    let t2 = t1 + "# Pool sizing — generated by beyond-pg from VM resources.\n"@;
    lemma_no_entry(t1, "# Pool sizing — generated by beyond-pg from VM resources.\n"@);
    let t3 = t2 + "default_pool_size = "@ + decimal(pool) + "\n"@;
    lemma_number_entry(t2, "default_pool_size"@, "default_pool_size = "@, pool, ""@, "\n"@);
    let t4 = t3 + "max_client_conn = "@ + decimal(clients) + "\n"@;
    lemma_number_entry(t3, "max_client_conn"@, "max_client_conn = "@, clients, ""@, "\n"@);
    let t5 = t4 + "so_reuseport = 1\n"@;
    lemma_entry(t4, "so_reuseport"@, "1"@, "so_reuseport = 1\n"@);
    let t6 = t5 + "\n"@;
    lemma_no_entry(t5, "\n"@);
    let t7 = t6 + "# TLS — termination for the public 5432 port (generated by beyond-pg).\n"@;
    lemma_no_entry(
        t6,
        "# TLS — termination for the public 5432 port (generated by beyond-pg).\n"@,
    );
    let t8 = t7 + "client_tls_sslmode = allow\n"@;
    lemma_entry(t7, "client_tls_sslmode"@, "allow"@, "client_tls_sslmode = allow\n"@);
    let t9 = t8 + "client_tls_cert_file = "@ + tls.cert + "\n"@;
    lemma_value_entry(t8, "client_tls_cert_file"@, "client_tls_cert_file = "@, tls.cert, "\n"@);
    let t10 = t9 + "client_tls_key_file = "@ + tls.key + "\n"@;
    lemma_value_entry(t9, "client_tls_key_file"@, "client_tls_key_file = "@, tls.key, "\n"@);
    let t11 = t10 + "client_tls_ca_file = "@ + ca + "\n"@;
    lemma_value_entry(t10, "client_tls_ca_file"@, "client_tls_ca_file = "@, ca, "\n"@);
    assert(decimal(pool) + ""@ =~= decimal(pool));
    assert(decimal(clients) + ""@ =~= decimal(clients));
    assert(tls.cert + ""@ =~= tls.cert);
    assert(tls.key + ""@ =~= tls.key);
    assert(ca + ""@ =~= ca);
    assert(t11 == pgbouncer_ini_text(tls, ram_bytes, vcpus));
    assert(entries(t11) =~= e0 + pooler_entries(pool, clients, tls));
}

proof fn lemma_hugepages_fallback_conf()
    ensures
        is_remark("# Generated automatically when nr_hugepages reservation\n"@),
        is_remark("# failed at boot (apply_kernel_settings). Postgres tries\n"@),
        is_remark("# hugepages and falls back to anonymous shmem if unavailable.\n"@),
        is_line_of("huge_pages = try\n"@, "huge_pages"@, "try"@),
        HUGEPAGES_FALLBACK_CONF@ == "# Generated automatically when nr_hugepages reservation\n"@ + "# failed at boot (apply_kernel_settings). Postgres tries\n"@ + "# hugepages and falls back to anonymous shmem if unavailable.\n"@ + "huge_pages = try\n"@,
{
    assert(is_remark("# Generated automatically when nr_hugepages reservation\n"@)) by {
        reveal_strlit("# Generated automatically when nr_hugepages reservation\n");
    }
    assert(is_remark("# failed at boot (apply_kernel_settings). Postgres tries\n"@)) by {
        reveal_strlit("# failed at boot (apply_kernel_settings). Postgres tries\n");
    }
    assert(is_remark("# hugepages and falls back to anonymous shmem if unavailable.\n"@)) by {
        reveal_strlit("# hugepages and falls back to anonymous shmem if unavailable.\n");
    }
    assert(is_line_of("huge_pages = try\n"@, "huge_pages"@, "try"@)) by {
        reveal_strlit("huge_pages = try\n");
        reveal_strlit("huge_pages");
        reveal_strlit("try");
        reveal_strlit(" = ");
        assert("huge_pages = try\n"@ =~= ("huge_pages"@ + " = "@ + "try"@).push('\n'));
        lemma_trim_visible("try"@);
    }
    reveal_strlit("# Generated automatically when nr_hugepages reservation\n\
     # failed at boot (apply_kernel_settings). Postgres tries\n\
     # hugepages and falls back to anonymous shmem if unavailable.\n\
     huge_pages = try\n");
    reveal_strlit("# Generated automatically when nr_hugepages reservation\n");
    reveal_strlit("# failed at boot (apply_kernel_settings). Postgres tries\n");
    reveal_strlit("# hugepages and falls back to anonymous shmem if unavailable.\n");
    reveal_strlit("huge_pages = try\n");
    assert(HUGEPAGES_FALLBACK_CONF@ =~= "# Generated automatically when nr_hugepages reservation\n"@ + "# failed at boot (apply_kernel_settings). Postgres tries\n"@ + "# hugepages and falls back to anonymous shmem if unavailable.\n"@ + "huge_pages = try\n"@);
}

/// The file for a machine without reserved huge pages lets the server try them.
pub proof fn law_fallback_tries_huge_pages()
    ensures
        entries(HUGEPAGES_FALLBACK_CONF@) == seq![
            ("huge_pages"@, "try"@),
        ],
{
    let t0 = Seq::<char>::empty();
    lemma_no_entries();
    lemma_hugepages_fallback_conf();
    let t1 = t0 + "# Generated automatically when nr_hugepages reservation\n"@;
    lemma_no_entry(t0, "# Generated automatically when nr_hugepages reservation\n"@);
    let t2 = t1 + "# failed at boot (apply_kernel_settings). Postgres tries\n"@;
    lemma_no_entry(t1, "# failed at boot (apply_kernel_settings). Postgres tries\n"@);
    let t3 = t2 + "# hugepages and falls back to anonymous shmem if unavailable.\n"@;
    lemma_no_entry(t2, "# hugepages and falls back to anonymous shmem if unavailable.\n"@);
    let t4 = t3 + "huge_pages = try\n"@;
    lemma_entry(t3, "huge_pages"@, "try"@, "huge_pages = try\n"@);
    assert(t1 =~= "# Generated automatically when nr_hugepages reservation\n"@);
    assert(entries(t4) =~= seq![
        ("huge_pages"@, "try"@),
    ]);
}

/// What the configuration of a pooler worker sets where several may run, behind that of a single one:
/// a socket of its own, its number, and the sockets of all workers by their numbers.
pub open spec fn peer_entries(peer: nat, n: nat) -> Seq<(Seq<char>, Seq<char>)> {
    seq![
        ("unix_socket_dir"@, "/var/run/pgbouncer/peer-"@ + decimal(peer)),
        ("peer_id"@, decimal(peer)),
    ] + peer_map(n)
}

/// The sockets of the first `n` workers by their numbers.
pub open spec fn peer_map(n: nat) -> Seq<(Seq<char>, Seq<char>)>
    decreases n,
{
    if n == 0 {
        seq![]
    } else {
        peer_map((n - 1) as nat).push(
            (decimal(n), "host=/var/run/pgbouncer/peer-"@ + decimal(n)),
        )
    }
}

proof fn lemma_decimal_is_key(n: nat)
    ensures
        is_key(decimal(n)),
        free(decimal(n), '\n'),
{
    lemma_decimal_visible(n);
    lemma_numeral_first(n, 10, false);
    let d = decimal(n);
    assert forall|j: int| 0 <= j < d.len() implies #[trigger] d[j] != '=' && d[j] != '#' by {
        assert(digit_value(d[j]) < 16);
    }
}

proof fn lemma_peer_dir(n: nat)
    ensures
        free(peer_socket_dir(n), '\n'),
        trim(peer_socket_dir(n)) == peer_socket_dir(n),
        peer_socket_dir(n) == "/var/run/pgbouncer/peer-"@ + decimal(n),
        free("host="@ + peer_socket_dir(n), '\n'),
        trim("host="@ + peer_socket_dir(n)) == "host="@ + peer_socket_dir(n),
        "host="@ + peer_socket_dir(n) == "host=/var/run/pgbouncer/peer-"@ + decimal(n),
{
    reveal_strlit("/var/run/pgbouncer/peer-");
    reveal_strlit("host=");
    reveal_strlit("host=/var/run/pgbouncer/peer-");
    lemma_decimal_visible(n);
    let d = decimal(n);
    let p = peer_socket_dir(n);
    let h = "host="@ + p;
    let k = "/var/run/pgbouncer/peer-"@.len() as int;
    assert forall|j: int| 0 <= j < p.len() implies #[trigger] p[j] != '\n' by {
        if j >= k {
            assert(p[j] == d[j - k]);
        }
    }
    assert forall|j: int| 0 <= j < h.len() implies #[trigger] h[j] != '\n' by {
        if j >= 5 {
            assert(h[j] == p[j - 5]);
        }
    }
    assert(p.last() == d[d.len() - 1] && h.last() == p.last() && p[0] == '/' && h[0] == 'h');
    lemma_trim_visible(p);
    lemma_trim_visible(h);
    assert(h =~= "host=/var/run/pgbouncer/peer-"@ + d);
}

proof fn lemma_peer_lines(t: Seq<char>, n: nat)
    requires
        closed(t),
    ensures
        closed(t + peer_lines(n)),
        entries(t + peer_lines(n)) == entries(t) + peer_map(n),
    decreases n,
{
    if n == 0 {
        assert(t + peer_lines(n) =~= t);
        assert(entries(t) + peer_map(n) =~= entries(t));
    } else {
        let before = peer_lines((n - 1) as nat);
        lemma_peer_lines(t, (n - 1) as nat);
        lemma_decimal_is_key(n);
        lemma_peer_dir(n);
        let v = "host="@ + peer_socket_dir(n);
        let line = decimal(n) + " = host="@ + peer_socket_dir(n) + "\n"@;
        lemma_host_line(decimal(n), peer_socket_dir(n));
        lemma_entry(t + before, decimal(n), v, line);
        assert(t + peer_lines(n) =~= t + before + line);
        assert(entries(t + peer_lines(n)) =~= entries(t) + peer_map(n));
    }
}

proof fn lemma_host_line(k: Seq<char>, dir: Seq<char>)
    ensures
        k + " = host="@ + dir + "\n"@ == (k + " = "@ + ("host="@ + dir)).push('\n'),
{
    reveal_strlit(" = host=");
    reveal_strlit(" = ");
    reveal_strlit("host=");
    reveal_strlit("\n");
    assert(k + " = host="@ + dir + "\n"@ =~= (k + " = "@ + ("host="@ + dir)).push('\n'));
}

/// Where a machine may run several pooler workers, that is from eight CPUs on, each of them has a
/// socket and a number of its own, and all of them know the sockets of all by number, so that a
/// request to cancel finds the worker that it is for; a single worker has none of that.
#[verifier::rlimit(60)]
pub proof fn law_workers_know_each_other(tls: TlsFiles, ram_bytes: u64, vcpus: u32, peer: nat)
    requires
        free(tls.cert, '\n'),
        free(tls.key, '\n'),
        tls.ca matches Some(x) ==> free(x, '\n'),
    ensures
        ({
            let plain = pgbouncer_ini_text(tls, ram_bytes, vcpus);
            let own = worker_ini_text(tls, ram_bytes, vcpus, peer);
            let n: nat = if vcpus >= 32 {
                8
            } else {
                (vcpus as int / 4) as nat
            };
            &&& vcpus < 8 ==> own == plain
            &&& vcpus >= 8 ==> entries(own) == entries(plain) + peer_entries(peer, n)
        }),
{
    let plain = pgbouncer_ini_text(tls, ram_bytes, vcpus);
    if vcpus >= 8 {
        let n = max_workers(vcpus) as nat;
        lemma_pooler_text_closed(tls, ram_bytes, vcpus);
        lemma_worker_words();
        lemma_peer_dir(peer);
        lemma_decimal_visible(peer);
        lemma_trim_visible(decimal(peer));
        let dir = peer_socket_dir(peer);
        let c1 = ("unix_socket_dir"@ + " = "@ + dir).push('\n');
        let c2 = ("peer_id"@ + " = "@ + decimal(peer)).push('\n');
        let t1 = plain + c1;
        lemma_entry(plain, "unix_socket_dir"@, dir, c1);
        let t2 = t1 + c2;
        lemma_entry(t1, "peer_id"@, decimal(peer), c2);
        let t3 = t2 + "\n"@;
        lemma_no_entry(t2, "\n"@);
        let t4 = t3 + "[peers]\n"@;
        lemma_section(t3);
        lemma_peer_lines(t4, n);
        lemma_worker_pieces(plain, dir, decimal(peer));
        assert(worker_ini_text(tls, ram_bytes, vcpus, peer) =~= t4 + peer_lines(n));
        assert(entries(t4 + peer_lines(n)) =~= entries(plain) + peer_entries(peer, n));
    }
}

proof fn lemma_worker_words()
    ensures
        is_key("unix_socket_dir"@) && free("unix_socket_dir"@, '\n'),
        is_key("peer_id"@) && free("peer_id"@, '\n'),
        is_remark("\n"@),
{
    reveal_strlit("unix_socket_dir");
    reveal_strlit("peer_id");
    reveal_strlit("\n");
}

/// The head of a section assigns nothing.
proof fn lemma_section(t: Seq<char>)
    requires
        closed(t),
    ensures
        closed(t + "[peers]\n"@),
        entries(t + "[peers]\n"@) == entries(t),
{
    reveal_strlit("[peers]\n");
    let line = "[peers]\n"@.drop_last();
    lemma_entries_add(t, line);
    assert(line.push('\n') =~= "[peers]\n"@);
    lemma_first_of(line, '=');
    assert(strip_cr(line) == line);
}

proof fn lemma_worker_pieces(plain: Seq<char>, dir: Seq<char>, id: Seq<char>)
    ensures
        plain + "unix_socket_dir = "@ + dir + "\npeer_id = "@ + id + "\n\n[peers]\n"@ == plain + (
        "unix_socket_dir"@ + " = "@ + dir).push('\n') + ("peer_id"@ + " = "@ + id).push('\n') + "\n"@
            + "[peers]\n"@,
{
    reveal_strlit("unix_socket_dir = ");
    reveal_strlit("unix_socket_dir");
    reveal_strlit(" = ");
    reveal_strlit("\npeer_id = ");
    reveal_strlit("peer_id");
    reveal_strlit("\n\n[peers]\n");
    reveal_strlit("\n");
    reveal_strlit("[peers]\n");
    assert(plain + "unix_socket_dir = "@ + dir + "\npeer_id = "@ + id + "\n\n[peers]\n"@ =~= plain
        + ("unix_socket_dir"@ + " = "@ + dir).push('\n') + ("peer_id"@ + " = "@ + id).push('\n')
        + "\n"@ + "[peers]\n"@);
}

proof fn lemma_pooler_text_closed(tls: TlsFiles, ram_bytes: u64, vcpus: u32)
    ensures
        closed(pgbouncer_ini_text(tls, ram_bytes, vcpus)),
{
    reveal_strlit("\n");
    let text = pgbouncer_ini_text(tls, ram_bytes, vcpus);
    assert(text.last() == "\n"@.last());
}

} // verus!
