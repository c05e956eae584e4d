//! The supervisor: which children run, when they are restarted, and how they are stopped.
//!
//! The machine around this module starts processes and waits for them; what is done in which
//! order, with which delay, and what is remembered, is decided here.
use crate::boot::{lemma_worker_file, worker_steps, FileStep};
use crate::children::{
    adopt, stat_starttime, AdoptResult, ChildRecord, PersistedChildren, ProcessProbe, StatError,
};
use crate::config::{
    library_file, library_path, max_workers, pgbouncer_ini_path, pgbouncer_max_workers,
    worker_ini_path, worker_ini_text, PKGLIBDIR,
};
use crate::http::{lemma_first_word, lemma_words_behind_space};
use crate::mmds::{MmdsConfig, PgTier};
use crate::number::{
    decimal, digit_value, law_numeral_reads_back, lemma_numeral_first, numeral, parse_decimal,
    push_signed, read_decimal, signed_decimal,
};
use crate::pg::{alter_role_password_sql, PGDATA, POSTGRES_USER};
use crate::scaler::{sample_taken, total_used, PgbScaler, PoolerStats, ScaleAction};
use crate::settings::{lemma_lines_concat, lemma_lines_first};
use crate::sql::{
    CDC_PUBLICATION_SQL, CDC_SLOT_SQL, PGBOUNCER_EXECUTE_SQL, PGBOUNCER_LOOKUP_SQL,
    PGBOUNCER_ROLE_SQL, PGBOUNCER_SCHEMA_SQL, PGBOUNCER_USAGE_SQL, REPLICATOR_ROLE_SQL,
};
use crate::text::{
    after_prefix, chars_of, contains, copy_str, is_listed, is_white, lines, lines_of, listed, literals, owned,
    same_str, starts_with, strings, strip_cr, texts, words, words_of,
};
use crate::tls::TlsFiles;
use vstd::arithmetic::power2::{lemma2_to64, lemma_pow2_strictly_increases, lemma_pow2_unfold, pow2};
use vstd::prelude::*;

verus! {

/// How long children have to stop by themselves.
pub const DRAIN_TIMEOUT_NS: u64 = 10_000_000_000;

/// How long a child must have run for its earlier restarts to be forgotten.
pub const STABLE_RUNTIME_NS: u64 = 60_000_000_000;

/// The longest delay before a restart, in milliseconds.
pub const MAX_BACKOFF_MS: u64 = 30_000;

/// How many pooler workers may run beside the first.
pub const PGB_EXTRA_COUNT: usize = 7;

/// Where the process in charge is reached for an upgrade.
pub const HANDOFF_SOCKET_PATH: &'static str = "/var/lib/beyond-pg/state/handoff.sock";

/// Where scripts are that run once the server is ready.
pub const HOOKS_POST_START: &'static str = "/etc/postgresql/18/hooks/post-start.d";

// ---------------------------------------------------------------------------
// Names.
// ---------------------------------------------------------------------------
/// The names of the pooler workers beside the first.
pub open spec fn extra_names() -> Seq<Seq<char>> {
    seq![
        "pgbouncer-1"@,
        "pgbouncer-2"@,
        "pgbouncer-3"@,
        "pgbouncer-4"@,
        "pgbouncer-5"@,
        "pgbouncer-6"@,
        "pgbouncer-7"@,
    ]
}

/// The name of the pooler worker at place `i` behind the first.
pub fn extra_name(i: usize) -> (r: &'static str)
    requires
        i < PGB_EXTRA_COUNT,
    ensures
        r@ == extra_names()[i as int],
{
    if i == 0 {
        "pgbouncer-1"
    } else if i == 1 {
        "pgbouncer-2"
    } else if i == 2 {
        "pgbouncer-3"
    } else if i == 3 {
        "pgbouncer-4"
    } else if i == 4 {
        "pgbouncer-5"
    } else if i == 5 {
        "pgbouncer-6"
    } else {
        "pgbouncer-7"
    }
}

/// What kind of process a child is.
#[derive(Clone, Copy, Debug, PartialEq, Eq, Structural)]
pub enum ChildKind {
    Postgres,
    Pooler,
    Cdc,
}

/// The kind of the child of this name, if there is one.
pub open spec fn kind_of(name: Seq<char>) -> Option<ChildKind> {
    if name == "postgres"@ {
        Some(ChildKind::Postgres)
    } else if name == "pgbouncer"@ || extra_names().contains(name) {
        Some(ChildKind::Pooler)
    } else if name == "beyond-pg-cdc"@ {
        Some(ChildKind::Cdc)
    } else {
        None
    }
}

fn is_extra_name(name: &str) -> (r: bool)
    ensures
        r == extra_names().contains(name@),
{
    for i in 0..PGB_EXTRA_COUNT
        invariant
            forall|j: int| 0 <= j < i ==> extra_names()[j] != name@,
    {
        if same_str(extra_name(i), name) {
            assert(extra_names()[i as int] == name@);
            return true;
        }
    }
    false
}

/// The kind of the child of this name.
pub fn child_kind(name: &str) -> (r: Option<ChildKind>)
    ensures
        r == kind_of(name@),
{
    if same_str(name, "postgres") {
        Some(ChildKind::Postgres)
    } else if same_str(name, "pgbouncer") || is_extra_name(name) {
        Some(ChildKind::Pooler)
    } else if same_str(name, "beyond-pg-cdc") {
        Some(ChildKind::Cdc)
    } else {
        None
    }
}

/// The number of a pooler worker among its peers: the first one is 1, and the others follow in the
/// order of their names.
pub open spec fn peer_of(name: Seq<char>) -> nat {
    if extra_names().contains(name) {
        (extra_names().index_of(name) + 2) as nat
    } else {
        1
    }
}

/// The program and the arguments of the child of this name. Each pooler worker has a configuration
/// file of its own.
pub open spec fn command_line(name: Seq<char>) -> Option<Seq<Seq<char>>> {
    match kind_of(name) {
        Some(ChildKind::Postgres) => Some(seq!["postgres"@, "-D"@, PGDATA@]),
        Some(ChildKind::Pooler) => Some(seq!["pgbouncer"@, worker_ini_path(peer_of(name))]),
        Some(ChildKind::Cdc) => Some(
            seq![
                "beyond-pg-cdc"@,
                "--slot"@,
                "cdc"@,
                "--publication"@,
                "cdc"@,
                "--http-port"@,
                "9001"@,
            ],
        ),
        None => None,
    }
}

/// The names of the workers beside the first differ.
proof fn lemma_extra_names_differ(i: int, j: int)
    requires
        0 <= i < PGB_EXTRA_COUNT,
        0 <= j < PGB_EXTRA_COUNT,
        extra_names()[i] == extra_names()[j],
    ensures
        i == j,
{
    reveal_strlit("pgbouncer-1");
    reveal_strlit("pgbouncer-2");
    reveal_strlit("pgbouncer-3");
    reveal_strlit("pgbouncer-4");
    reveal_strlit("pgbouncer-5");
    reveal_strlit("pgbouncer-6");
    reveal_strlit("pgbouncer-7");
    assert(extra_names()[0][10] == '1');
    assert(extra_names()[1][10] == '2');
    assert(extra_names()[2][10] == '3');
    assert(extra_names()[3][10] == '4');
    assert(extra_names()[4][10] == '5');
    assert(extra_names()[5][10] == '6');
    assert(extra_names()[6][10] == '7');
    assert(extra_names()[i][10] == extra_names()[j][10]);
}

/// The number of a pooler worker among its peers.
pub fn pooler_peer(name: &str) -> (r: usize)
    ensures
        r == peer_of(name@),
        1 <= r <= PGB_EXTRA_COUNT + 1,
{
    for i in 0..PGB_EXTRA_COUNT
        invariant
            forall|j: int| 0 <= j < i ==> extra_names()[j] != name@,
    {
        if same_str(extra_name(i), name) {
            proof {
                let k = extra_names().index_of(name@);
                assert(extra_names()[i as int] == name@);
                assert(extra_names().contains(name@));
                assert(0 <= k < extra_names().len() && extra_names()[k] == name@);
                lemma_extra_names_differ(i as int, k);
            }
            return i + 2;
        }
    }
    1
}

/// The program and the arguments of the child of this name.
pub fn child_command(name: &str) -> (r: Option<Vec<String>>)
    ensures
        match r {
            Some(c) => command_line(name@) == Some(strings(c@)),
            None => command_line(name@) is None,
        },
{
    match child_kind(name) {
        Some(ChildKind::Postgres) => {
            let items = ["postgres", "-D", PGDATA];
            let r = owned(items.as_slice());
            assert(literals(items@) =~= seq!["postgres"@, "-D"@, PGDATA@]);
            Some(r)
        },
        Some(ChildKind::Pooler) => {
            let file: String = pgbouncer_ini_path(pooler_peer(name));
            let items = ["pgbouncer", file.as_str()];
            let r = owned(items.as_slice());
            assert(literals(items@) =~= seq!["pgbouncer"@, file@]);
            Some(r)
        },
        Some(ChildKind::Cdc) => {
            let items = [
                "beyond-pg-cdc",
                "--slot",
                "cdc",
                "--publication",
                "cdc",
                "--http-port",
                "9001",
            ];
            let r = owned(items.as_slice());
            assert(literals(items@) =~= seq![
                "beyond-pg-cdc"@,
                "--slot"@,
                "cdc"@,
                "--publication"@,
                "cdc"@,
                "--http-port"@,
                "9001"@,
            ]);
            Some(r)
        },
        None => None,
    }
}

proof fn lemma_worker_ini_paths_differ(a: nat, b: nat)
    requires
        a != b,
    ensures
        worker_ini_path(a) != worker_ini_path(b),
{
    reveal_strlit("/etc/pgbouncer/pgbouncer.ini");
    reveal_strlit("/etc/pgbouncer/pgbouncer-");
    reveal_strlit(".ini");
    let pa = worker_ini_path(a);
    let pb = worker_ini_path(b);
    if pa == pb {
        if a == 1 || b == 1 {
            assert(pa[24] == pb[24]);
        } else {
            let da = decimal(a);
            let db = decimal(b);
            assert(pa.len() == 25 + da.len() + 4);
            assert(pb.len() == 25 + db.len() + 4);
            assert(pa.subrange(25, (25 + da.len()) as int) =~= da);
            assert(pb.subrange(25, (25 + db.len()) as int) =~= db);
            law_numeral_reads_back(a, 10, false, a + b);
            law_numeral_reads_back(b, 10, false, a + b);
        }
    }
}

/// A pooler worker is started with the file that is laid down for it at boot, on a machine that
/// has room for the worker, and no other worker is started with that file.
pub proof fn law_workers_have_their_own_files(
    a: Seq<char>,
    b: Seq<char>,
    tls: TlsFiles,
    ram_bytes: u64,
    vcpus: u32,
)
    requires
        kind_of(a) == Some(ChildKind::Pooler),
        kind_of(b) == Some(ChildKind::Pooler),
        a != b,
    ensures
        command_line(a) == Some(seq!["pgbouncer"@, worker_ini_path(peer_of(a))]),
        command_line(a) != command_line(b),
        peer_of(a) <= max_workers(vcpus) ==> worker_steps(
            tls,
            ram_bytes,
            vcpus,
            max_workers(vcpus) as nat,
        ).contains(
            FileStep::Write(
                worker_ini_path(peer_of(a)),
                worker_ini_text(tls, ram_bytes, vcpus, peer_of(a)),
            ),
        ),
{
    if peer_of(a) <= max_workers(vcpus) {
        lemma_worker_file(tls, ram_bytes, vcpus, max_workers(vcpus) as nat, peer_of(a));
    }
    if extra_names().contains(a) {
        let i = extra_names().index_of(a);
        assert(0 <= i < extra_names().len() && extra_names()[i] == a);
    }
    if extra_names().contains(b) {
        let j = extra_names().index_of(b);
        assert(0 <= j < extra_names().len() && extra_names()[j] == b);
    }
    lemma_worker_ini_paths_differ(peer_of(a), peer_of(b));
    assert(command_line(a)->0[1] == worker_ini_path(peer_of(a)));
    assert(command_line(b)->0[1] == worker_ini_path(peer_of(b)));
}

// ---------------------------------------------------------------------------
// A child.
// ---------------------------------------------------------------------------
/// What is known of a child. Times are nanoseconds of a clock that never goes back.
#[derive(Debug)]
pub struct ChildState {
    pub name: &'static str,
    /// Its process number while it runs.
    pub pid: Option<u32>,
    /// How often it was started since it last ran stably.
    pub restart_count: u32,
    pub last_start_ns: Option<u64>,
}

/// Whether a child started at `start` had run stably at `now`.
pub open spec fn ran_stably(start: Option<u64>, now_ns: u64) -> bool {
    match start {
        Some(t) => now_ns - t >= STABLE_RUNTIME_NS,
        None => false,
    }
}

/// The delay before a restart, in milliseconds: it doubles with every restart, eight times at
/// most.
pub open spec fn backoff(restart_count: u32) -> int {
    let n = if restart_count < 8 {
        restart_count as nat
    } else {
        8
    };
    let ms = 100 * pow2(n) as int;
    if ms < MAX_BACKOFF_MS {
        ms
    } else {
        MAX_BACKOFF_MS as int
    }
}

/// A child that was not started yet.
pub open spec fn new_child(name: &'static str) -> ChildState {
    ChildState { name, pid: None, restart_count: 0, last_start_ns: None }
}

/// A child that was started.
pub open spec fn started(c: ChildState, pid: Option<u32>, now_ns: u64) -> ChildState {
    ChildState {
        name: c.name,
        pid,
        restart_count: crate::scaler::counted(c.restart_count),
        last_start_ns: Some(now_ns),
    }
}

/// A child that was taken over while it ran.
pub open spec fn taken_over(c: ChildState, pid: u32, now_ns: u64) -> ChildState {
    ChildState { name: c.name, pid: Some(pid), restart_count: 0, last_start_ns: Some(now_ns) }
}

impl ChildState {
    /// A child that was not started yet.
    pub fn new(name: &'static str) -> (r: ChildState)
        ensures
            r == new_child(name),
    {
        ChildState { name, pid: None, restart_count: 0, last_start_ns: None }
    }

    /// Notes that the child is no more. One that ran stably starts over with the shortest delay.
    pub fn on_exit(&mut self, now_ns: u64)
        ensures
            *final(self) == exited(*old(self), now_ns),
    {
        self.pid = None;
        let stable: bool = match self.last_start_ns {
            Some(t) => now_ns >= t && now_ns - t >= STABLE_RUNTIME_NS,
            None => false,
        };
        if stable {
            self.restart_count = 0;
        }
    }

    /// The delay before the next start, in milliseconds.
    pub fn backoff_ms(&self) -> (r: u64)
        ensures
            r == backoff(self.restart_count),
    {
        let n: u32 = if self.restart_count < 8 {
            self.restart_count
        } else {
            8
        };
        let mut ms: u64 = 100;
        proof {
            lemma2_to64();
        }
        for i in 0..n
            invariant
                n <= 8,
                ms == 100 * pow2(i as nat),
                ms <= 100 * 256,
        {
            proof {
                lemma_pow2_unfold((i + 1) as nat);
                lemma2_to64();
                if i + 1 < 8 {
                    lemma_pow2_strictly_increases((i + 1) as nat, 8);
                }
            }
            ms = ms * 2;
        }
        if ms < MAX_BACKOFF_MS {
            ms
        } else {
            MAX_BACKOFF_MS
        }
    }

    /// Notes that the child was started.
    pub fn record_start(&mut self, pid: Option<u32>, now_ns: u64)
        ensures
            *final(self) == started(*old(self), pid, now_ns),
    {
        self.pid = pid;
        self.last_start_ns = Some(now_ns);
        if self.restart_count < u32::MAX {
            self.restart_count = self.restart_count + 1;
        }
    }

    /// Notes that a running child was taken over: it was stable, or there would have been no
    /// one to take it over from.
    pub fn record_adopted(&mut self, pid: u32, now_ns: u64)
        ensures
            *final(self) == taken_over(*old(self), pid, now_ns),
    {
        self.pid = Some(pid);
        self.last_start_ns = Some(now_ns);
        self.restart_count = 0;
    }
}

/// The delay before a restart never shrinks while a child keeps failing, and stays between a
/// tenth of a second and the longest delay.
pub proof fn law_backoff_grows_within_bounds(a: u32, b: u32)
    requires
        a <= b,
    ensures
        100 <= backoff(a) <= backoff(b) <= MAX_BACKOFF_MS,
        a < b <= 8 ==> backoff(a) < backoff(b),
{
    lemma2_to64();
    let m = if a < 8 {
        a as nat
    } else {
        8
    };
    let n = if b < 8 {
        b as nat
    } else {
        8
    };
    if m < n {
        lemma_pow2_strictly_increases(m, n);
    }
    if n < 8 {
        lemma_pow2_strictly_increases(n, 8);
    }
    if 0 < m {
        lemma_pow2_strictly_increases(0, m);
    }
}


// ---------------------------------------------------------------------------
// More and fewer pooler workers.
// ---------------------------------------------------------------------------
/// What became of a decision about the number of workers.
#[derive(Debug, PartialEq, Eq)]
pub enum ScaleOutcome {
    /// A worker of this name was started.
    SpawnedUp(&'static str),
    /// The worker of this name was told to finish; it stays listed until it is gone.
    ReapedDown(&'static str),
    NoOp,
}

/// What carrying out a decision comes to, where `before` and `after` are the workers beside the
/// first. A new worker has the name that belongs to the number of those there were.
pub open spec fn scale_applied<
    S: FnOnce(&'static str) -> Option<ChildState>,
    R: FnOnce(&ChildState),
>(
    action: ScaleAction,
    before: Seq<ChildState>,
    after: Seq<ChildState>,
    outcome: ScaleOutcome,
    spawn: S,
    reap: R,
) -> bool {
    match outcome {
        ScaleOutcome::SpawnedUp(name) => {
            &&& action == ScaleAction::Up
            &&& before.len() < PGB_EXTRA_COUNT
            &&& name@ == extra_names()[before.len() as int]
            &&& after.len() == before.len() + 1
            &&& after.drop_last() == before
            &&& spawn.ensures((name,), Some(after.last()))
        },
        ScaleOutcome::ReapedDown(name) => {
            &&& action == ScaleAction::Down
            &&& before.len() > 0
            &&& name == before.last().name
            &&& after == before
            &&& reap.ensures((&before.last(),), ())
        },
        ScaleOutcome::NoOp => {
            &&& after == before
            &&& action == ScaleAction::Up && before.len() < PGB_EXTRA_COUNT
                ==> exists|name: &'static str| #[trigger]
                spawn.ensures((name,), None) && name@ == extra_names()[before.len() as int]
            &&& action == ScaleAction::Down ==> before.len() == 0
        },
    }
}

/// Carries out a decision about the number of workers. `spawn` starts a worker of the given name,
/// or fails with none; `reap` tells a worker to finish. A new worker has the name that belongs to
/// the number of those there are; the last one is the one to go.
pub fn apply_scale_action<S: FnOnce(&'static str) -> Option<ChildState>, R: FnOnce(&ChildState)>(
    action: ScaleAction,
    pgb_extra: &mut Vec<ChildState>,
    spawn: S,
    reap: R,
) -> (r: ScaleOutcome)
    requires
        forall|name: &'static str| spawn.requires((name,)),
        forall|w: &ChildState| reap.requires((w,)),
    ensures
        scale_applied(action, old(pgb_extra)@, final(pgb_extra)@, r, spawn, reap),
{
    match action {
        ScaleAction::Up => {
            let idx: usize = pgb_extra.len();
            if idx >= PGB_EXTRA_COUNT {
                return ScaleOutcome::NoOp;
            }
            let name: &'static str = extra_name(idx);
            match spawn(name) {
                Some(w) => {
                    pgb_extra.push(w);
                    assert(pgb_extra@.drop_last() == old(pgb_extra)@);
                    ScaleOutcome::SpawnedUp(name)
                },
                None => ScaleOutcome::NoOp,
            }
        },
        ScaleAction::Down => {
            let n: usize = pgb_extra.len();
            if n == 0 {
                return ScaleOutcome::NoOp;
            }
            let name: &'static str = pgb_extra[n - 1].name;
            reap(&pgb_extra[n - 1]);
            ScaleOutcome::ReapedDown(name)
        },
        ScaleAction::Hold => ScaleOutcome::NoOp,
    }
}

/// How many workers beside the first are started at once after a restart, where so many ran
/// before.
pub open spec fn warm_extras(prior: int, vcpus: u32) -> int {
    if prior < max_workers(vcpus) - 1 {
        prior
    } else {
        max_workers(vcpus) - 1
    }
}

/// How many workers beside the first are started at once after a restart: as many as ran before,
/// within what the machine is now allowed.
pub fn warm_start_extra_count(prior_live_extras: usize, vcpus: u32) -> (r: usize)
    ensures
        r == warm_extras(prior_live_extras as int, vcpus),
{
    let most: usize = pgbouncer_max_workers(vcpus) - 1;
    if prior_live_extras < most {
        prior_live_extras
    } else {
        most
    }
}

/// How many of the first `n` names of workers are in the record.
pub open spec fn extras_recorded(prior: Map<Seq<char>, ChildRecord>, n: nat) -> nat
    decreases n,
{
    if n == 0 {
        0
    } else {
        extras_recorded(prior, (n - 1) as nat) + if prior.contains_key(extra_names()[n - 1]) {
            1nat
        } else {
            0
        }
    }
}

/// How many workers beside the first are in the record of an earlier run.
pub fn recorded_extras(prior: &PersistedChildren) -> (r: usize)
    requires
        prior.wf(),
    ensures
        r == extras_recorded(prior.children@, PGB_EXTRA_COUNT as nat),
{
    let mut n: usize = 0;
    for i in 0..PGB_EXTRA_COUNT
        invariant
            prior.wf(),
            n <= i,
            n == extras_recorded(prior.children@, i as nat),
    {
        if prior.get(extra_name(i)).is_some() {
            n = n + 1;
        }
    }
    n
}

// ---------------------------------------------------------------------------
// Starting.
// ---------------------------------------------------------------------------
/// A step of a start from nothing.
#[derive(Clone, Copy, Debug, PartialEq, Eq, Structural)]
pub enum ColdStep {
    Boot,
    SpawnPostgres,
    /// Fails if the server is not ready within so many seconds.
    WaitReady(u64),
    StartForwarder,
    /// Goes on after so many seconds, ready or not.
    WaitSyncStandby(u64),
    PostStart,
    SpawnPooler,
    /// So many workers beside the first; one that fails to start is passed over.
    SpawnExtras(usize),
    SpawnCdc,
}

/// What the failure of a wait for the server says.
pub const NOT_READY: &'static str = "postgres did not become ready within 60s";

/// The steps of a start from nothing.
pub open spec fn cold_steps(cfg: MmdsConfig, extras: usize) -> Seq<ColdStep> {
    let base = seq![ColdStep::Boot, ColdStep::SpawnPostgres, ColdStep::WaitReady(60)];
    let forwarding = if cfg.pg_tier != PgTier::Replica && cfg.wal_sink is Some {
        base + seq![ColdStep::StartForwarder, ColdStep::WaitSyncStandby(30)]
    } else {
        base
    };
    let prepared = if cfg.pg_tier != PgTier::Replica {
        forwarding.push(ColdStep::PostStart)
    } else {
        forwarding
    };
    let pooled = prepared + seq![ColdStep::SpawnPooler, ColdStep::SpawnExtras(extras)];
    if cfg.pg_tier != PgTier::Replica && cfg.cdc_enabled {
        pooled.push(ColdStep::SpawnCdc)
    } else {
        pooled
    }
}

/// The steps of a start from nothing, where so many workers ran beside the first before.
pub open spec fn start_plan(cfg: MmdsConfig, prior_extras: usize) -> Seq<ColdStep> {
    cold_steps(cfg, warm_extras(prior_extras as int, cfg.vcpus) as usize)
}

/// Lists the steps of a start from nothing, where `prior_extras` workers ran beside the first
/// before.
pub fn cold_start(cfg: &MmdsConfig, prior_extras: usize) -> (r: Vec<ColdStep>)
    ensures
        r@ == start_plan(*cfg, prior_extras),
{
    let extras: usize = warm_start_extra_count(prior_extras, cfg.vcpus);
    let mut out: Vec<ColdStep> = Vec::new();
    out.push(ColdStep::Boot);
    out.push(ColdStep::SpawnPostgres);
    out.push(ColdStep::WaitReady(60));
    if cfg.pg_tier != PgTier::Replica {
        if cfg.wal_sink.is_some() {
            out.push(ColdStep::StartForwarder);
            out.push(ColdStep::WaitSyncStandby(30));
        }
        out.push(ColdStep::PostStart);
    }
    out.push(ColdStep::SpawnPooler);
    out.push(ColdStep::SpawnExtras(extras));
    if cfg.pg_tier != PgTier::Replica && cfg.cdc_enabled {
        out.push(ColdStep::SpawnCdc);
    }
    assert(out@ =~= cold_steps(*cfg, extras));
    out
}

proof fn lemma_extras_recorded(prior: Map<Seq<char>, ChildRecord>, k: nat, n: nat)
    requires
        n <= PGB_EXTRA_COUNT,
        forall|i: int|
            0 <= i < PGB_EXTRA_COUNT ==> (prior.contains_key(#[trigger] extra_names()[i]) <==> i
                < k),
    ensures
        extras_recorded(prior, n) == if n < k {
            n
        } else {
            k
        },
    decreases n,
{
    if n > 0 {
        lemma_extras_recorded(prior, k, (n - 1) as nat);
        assert(prior.contains_key(extra_names()[n - 1]) <==> n - 1 < k);
    }
}

/// The pooler's size survives a restart: where the record names the first `k` workers beside the
/// first, so many are started again, or as many as the machine has room for if that is fewer.
pub proof fn law_pooler_size_survives_a_restart(
    cfg: MmdsConfig,
    prior: Map<Seq<char>, ChildRecord>,
    k: nat,
)
    requires
        k <= PGB_EXTRA_COUNT,
        forall|i: int|
            0 <= i < PGB_EXTRA_COUNT ==> (prior.contains_key(#[trigger] extra_names()[i]) <==> i
                < k),
    ensures
        ({
            let recorded = extras_recorded(prior, PGB_EXTRA_COUNT as nat);
            let steps = cold_steps(cfg, warm_extras(recorded as int, cfg.vcpus) as usize);
            &&& recorded == k
            &&& k < max_workers(cfg.vcpus) ==> steps.contains(ColdStep::SpawnExtras(k as usize))
            &&& k >= max_workers(cfg.vcpus) ==> steps.contains(
                ColdStep::SpawnExtras((max_workers(cfg.vcpus) - 1) as usize),
            )
        }),
{
    lemma_extras_recorded(prior, k, PGB_EXTRA_COUNT as nat);
    let n = warm_extras(k as int, cfg.vcpus) as usize;
    let s = cold_steps(cfg, n);
    let at = if cfg.pg_tier == PgTier::Replica {
        4int
    } else if cfg.wal_sink is Some {
        7int
    } else {
        5int
    };
    assert(s[at] == ColdStep::SpawnExtras(n));
}

/// The log is forwarded before the first statements are run, whose commits wait for it; on a
/// replica, which takes no statements, none are run; the pooler comes after them, since it needs
/// the roles that they make; and nothing is started before the server is ready.
pub proof fn law_order_of_start(cfg: MmdsConfig, extras: usize)
    ensures
        ({
            let s = cold_steps(cfg, extras);
            &&& s[0] == ColdStep::Boot && s[1] == ColdStep::SpawnPostgres && s[2]
                == ColdStep::WaitReady(60)
            &&& forall|i: int, j: int|
                0 <= i < s.len() && 0 <= j < s.len() && s[i] == ColdStep::StartForwarder && s[j]
                    == ColdStep::PostStart ==> i < j
            &&& forall|i: int, j: int|
                0 <= i < s.len() && 0 <= j < s.len() && s[i] == ColdStep::PostStart && s[j]
                    == ColdStep::SpawnPooler ==> i < j
            &&& cfg.pg_tier == PgTier::Replica ==> !s.contains(ColdStep::PostStart)
                && !s.contains(ColdStep::StartForwarder) && !s.contains(ColdStep::SpawnCdc)
            &&& cfg.pg_tier != PgTier::Replica ==> s.contains(ColdStep::PostStart)
            &&& s.contains(ColdStep::SpawnPooler)
        }),
{
    let s = cold_steps(cfg, extras);
    let k = if cfg.pg_tier == PgTier::Replica {
        3int
    } else if cfg.wal_sink is Some {
        6int
    } else {
        4int
    };
    assert(s[k] == ColdStep::SpawnPooler);
    if cfg.pg_tier != PgTier::Replica {
        assert(s[k - 1] == ColdStep::PostStart);
    }
}

/// The first `n` names of workers that are in the record.
pub open spec fn extras_in(prior: Map<Seq<char>, ChildRecord>, n: nat) -> Seq<Seq<char>>
    decreases n,
{
    if n == 0 {
        seq![]
    } else {
        let before = extras_in(prior, (n - 1) as nat);
        if prior.contains_key(extra_names()[n - 1]) {
            before.push(extra_names()[n - 1])
        } else {
            before
        }
    }
}

/// The children that a process takes over from its predecessor.
pub open spec fn inherited(prior: Map<Seq<char>, ChildRecord>, cfg: MmdsConfig) -> Seq<Seq<char>> {
    let poolers = seq!["postgres"@, "pgbouncer"@] + extras_in(prior, PGB_EXTRA_COUNT as nat);
    if cfg.pg_tier != PgTier::Replica && cfg.cdc_enabled && prior.contains_key("beyond-pg-cdc"@) {
        poolers.push("beyond-pg-cdc"@)
    } else {
        poolers
    }
}

/// Lists the children that a process takes over from its predecessor: the server and the first
/// pooler worker always, the others exactly if they ran.
pub fn successor_children(prior: &PersistedChildren, cfg: &MmdsConfig) -> (r: Vec<&'static str>)
    requires
        prior.wf(),
    ensures
        literals(r@) == inherited(prior.children@, *cfg),
{
    let mut out: Vec<&'static str> = Vec::new();
    out.push("postgres");
    out.push("pgbouncer");
    let ghost head = seq!["postgres"@, "pgbouncer"@];
    assert(literals(out@) =~= head);
    assert(head + extras_in(prior.children@, 0) =~= head);
    for i in 0..PGB_EXTRA_COUNT
        invariant
            prior.wf(),
            literals(out@) == head + extras_in(prior.children@, i as nat),
    {
        let ghost before = literals(out@);
        let name: &'static str = extra_name(i);
        if prior.get(name).is_some() {
            out.push(name);
            assert(literals(out@) =~= before.push(name@));
        }
        assert(literals(out@) =~= head + extras_in(prior.children@, (i + 1) as nat));
    }
    if cfg.pg_tier != PgTier::Replica && cfg.cdc_enabled && prior.get("beyond-pg-cdc").is_some() {
        let ghost before = literals(out@);
        out.push("beyond-pg-cdc");
        assert(literals(out@) =~= before.push("beyond-pg-cdc"@));
    }
    out
}

/// What to do about a child of the predecessor.
#[derive(Clone, Copy, Debug, PartialEq, Eq, Structural)]
pub enum Adoption {
    /// Take over the process of this number.
    Adopt(u32),
    /// Start a fresh process of this kind.
    Respawn(ChildKind),
}

/// Why a child of the predecessor can be neither taken over nor started.
#[derive(Debug)]
pub enum AdoptionError {
    UnknownName(String),
}

/// Why a child can be neither taken over nor started, without its representation.
pub enum AdoptionFault {
    UnknownName(Seq<char>),
}

impl View for AdoptionError {
    type V = AdoptionFault;

    open spec fn view(&self) -> AdoptionFault {
        match self {
            AdoptionError::UnknownName(n) => AdoptionFault::UnknownName(n@),
        }
    }
}

/// The words of an error.
pub open spec fn adoption_text(e: AdoptionFault) -> Seq<char> {
    match e {
        AdoptionFault::UnknownName(n) => "unknown child name in adoption: "@ + n,
    }
}

impl AdoptionError {
    /// The words of this error.
    pub fn to_string(&self) -> (r: String)
        ensures
            r@ == adoption_text(self@),
    {
        match self {
            AdoptionError::UnknownName(n) => {
                let mut out: String = copy_str("unknown child name in adoption: ");
                out.append(n.as_str());
                out
            },
        }
    }
}

/// What to do about a child: the remembered process is taken over if it is still the same one,
/// and replaced by a fresh one in every other case, also where nothing can be read of it.
pub open spec fn adoption(
    name: Seq<char>,
    record: Option<ChildRecord>,
    probe: ProcessProbe,
) -> Result<Adoption, AdoptionFault> {
    let fresh = match kind_of(name) {
        Some(kind) => Ok(Adoption::Respawn(kind)),
        None => Err(AdoptionFault::UnknownName(name)),
    };
    match (record, probe) {
        (Some(rec), ProcessProbe::Stat(s)) => if stat_starttime(s@) == Ok::<nat, StatError>(
            rec.starttime as nat,
        ) {
            Ok(Adoption::Adopt(rec.pid))
        } else {
            fresh
        },
        _ => fresh,
    }
}

/// Decides what to do about a child of the predecessor; `probe` is what was found at the number
/// that the record holds.
pub fn adopt_or_respawn_child(
    name: &str,
    record: Option<&ChildRecord>,
    probe: &ProcessProbe,
) -> (r: Result<Adoption, AdoptionError>)
    ensures
        match (r, adoption(
            name@,
            match record {
                Some(x) => Some(*x),
                None => None,
            },
            *probe,
        )) {
            (Ok(a), Ok(b)) => a == b,
            (Err(a), Err(b)) => a@ == b,
            _ => false,
        },
{
    match record {
        Some(rec) => match adopt(rec, probe) {
            Ok(AdoptResult::Adopted) => return Ok(Adoption::Adopt(rec.pid)),
            _ => {},
        },
        None => {},
    }
    match child_kind(name) {
        Some(kind) => Ok(Adoption::Respawn(kind)),
        None => Err(AdoptionError::UnknownName(copy_str(name))),
    }
}

/// The remembered process has this number and still runs.
pub open spec fn is_still(record: Option<ChildRecord>, probe: ProcessProbe, pid: u32) -> bool {
    match (record, probe) {
        (Some(rec), ProcessProbe::Stat(s)) => rec.pid == pid && stat_starttime(s@) == Ok::<
            nat,
            StatError,
        >(rec.starttime as nat),
        _ => false,
    }
}

/// A process is taken over only if it was started at the remembered time: a number that was given
/// to another process is never mistaken for the child.
pub proof fn law_only_the_same_process_is_adopted(
    name: Seq<char>,
    record: Option<ChildRecord>,
    probe: ProcessProbe,
    pid: u32,
)
    ensures
        adoption(name, record, probe) == Ok::<Adoption, AdoptionFault>(Adoption::Adopt(pid))
            <==> is_still(record, probe, pid),
{
}

/// A child that was recorded is found again under its name, and a successor takes it over exactly
/// if the process with its number still is the one that was recorded.
pub proof fn law_recorded_child_is_adopted(
    before: Map<Seq<char>, ChildRecord>,
    name: Seq<char>,
    record: ChildRecord,
    probe: ProcessProbe,
)
    ensures
        ({
            let after = before.insert(name, record);
            let taken = adoption(name, Some(after[name]), probe);
            &&& after.contains_key(name)
            &&& taken == Ok::<Adoption, AdoptionFault>(Adoption::Adopt(record.pid))
                <==> (probe matches ProcessProbe::Stat(s) && stat_starttime(s@)
                == Ok::<nat, StatError>(record.starttime as nat))
        }),
{
}


// ---------------------------------------------------------------------------
// Running.
// ---------------------------------------------------------------------------
/// The children that run.
#[derive(Debug)]
pub struct Supervision {
    pub pg: ChildState,
    /// The first pooler worker.
    pub pgb: ChildState,
    /// The other pooler workers.
    pub pgb_extra: Vec<ChildState>,
    pub cdc: Option<ChildState>,
}

/// Something that happened.
#[derive(Clone, Copy, Debug, PartialEq, Eq, Structural)]
pub enum Event {
    /// The process was asked to stop.
    Stop,
    PostgresExited,
    PoolerExited,
    /// The worker at this place is no more.
    ExtraExited(usize),
    CdcExited,
    /// The certificate was replaced.
    CertRotated,
}

/// What is done about it.
#[derive(Debug)]
pub enum Effect {
    /// Stop all children and end.
    Drain,
    /// Start the child again after a delay, and enter it in the record.
    Restart { kind: ChildKind, delay_ms: u64 },
    /// Take the worker out of the record.
    Forget(&'static str),
    /// Have the server read its configuration again, and send these processes a hangup.
    Reload(Vec<u32>),
    Nothing,
}

/// The processes of children.
pub open spec fn pids_of(children: Seq<ChildState>) -> Seq<u32>
    decreases children.len(),
{
    if children.len() == 0 {
        seq![]
    } else {
        let before = pids_of(children.drop_last());
        match children.last().pid {
            Some(p) => before.push(p),
            None => before,
        }
    }
}

/// A child after it is no more.
pub open spec fn exited(c: ChildState, now_ns: u64) -> ChildState {
    ChildState {
        name: c.name,
        pid: None,
        restart_count: if ran_stably(c.last_start_ns, now_ns) {
            0
        } else {
            c.restart_count
        },
        last_start_ns: c.last_start_ns,
    }
}

fn push_pid(out: &mut Vec<u32>, child: &ChildState)
    ensures
        final(out)@ == (match child.pid {
            Some(p) => old(out)@.push(p),
            None => old(out)@,
        }),
{
    match child.pid {
        Some(p) => out.push(p),
        None => {},
    }
}

/// What an event changes and what is done about it.
pub open spec fn event_handled(
    before: Supervision,
    event: Event,
    now_ns: u64,
    after: Supervision,
    effect: Effect,
) -> bool {
    match event {
        Event::Stop => effect == Effect::Drain && after == before,
        Event::PostgresExited => {
            let c = exited(before.pg, now_ns);
            &&& after == (Supervision { pg: c, ..before })
            &&& effect == (Effect::Restart {
                kind: ChildKind::Postgres,
                delay_ms: backoff(c.restart_count) as u64,
            })
        },
        Event::PoolerExited => {
            let c = exited(before.pgb, now_ns);
            &&& after == (Supervision { pgb: c, ..before })
            &&& effect == (Effect::Restart {
                kind: ChildKind::Pooler,
                delay_ms: backoff(c.restart_count) as u64,
            })
        },
        Event::CdcExited => match before.cdc {
            Some(old_c) => {
                let c = exited(old_c, now_ns);
                &&& after == (Supervision { cdc: Some(c), ..before })
                &&& effect == (Effect::Restart {
                    kind: ChildKind::Cdc,
                    delay_ms: backoff(c.restart_count) as u64,
                })
            },
            None => effect == Effect::Nothing && after == before,
        },
        Event::ExtraExited(i) => if i < before.pgb_extra@.len() {
            &&& after.pg == before.pg
            &&& after.pgb == before.pgb
            &&& after.cdc == before.cdc
            &&& after.pgb_extra@ == before.pgb_extra@.remove(i as int)
            &&& effect == Effect::Forget(before.pgb_extra@[i as int].name)
        } else {
            effect == Effect::Nothing && after == before
        },
        Event::CertRotated => {
            &&& after == before
            &&& effect matches Effect::Reload(pids)
            &&& pids@ == pids_of(before.poolers())
        },
    }
}

impl Supervision {
    /// The pooler workers, the first one first.
    pub open spec fn poolers(&self) -> Seq<ChildState> {
        seq![self.pgb] + self.pgb_extra@
    }

    /// All children, in the order in which they are stopped.
    pub open spec fn all(&self) -> Seq<ChildState> {
        let most = seq![self.pg] + self.poolers();
        match self.cdc {
            Some(c) => most.push(c),
            None => most,
        }
    }

    /// The processes of the pooler workers.
    pub fn pooler_pids(&self) -> (r: Vec<u32>)
        ensures
            r@ == pids_of(self.poolers()),
    {
        let mut out: Vec<u32> = Vec::new();
        assert(pids_of(self.poolers().take(0)) =~= out@);
        push_pid(&mut out, &self.pgb);
        assert(self.poolers().take(1).drop_last() =~= self.poolers().take(0));
        assert(out@ == pids_of(self.poolers().take(1)));
        for i in 0..self.pgb_extra.len()
            invariant
                out@ == pids_of(self.poolers().take(i + 1)),
        {
            push_pid(&mut out, &self.pgb_extra[i]);
            assert(self.poolers().take(i + 2).drop_last() =~= self.poolers().take(i + 1));
            assert(self.poolers().take(i + 2).last() == self.pgb_extra@[i as int]);
        }
        assert(self.poolers().take(self.poolers().len() as int) =~= self.poolers());
        out
    }

    /// The processes of all children, in the order in which they are stopped.
    pub fn all_pids(&self) -> (r: Vec<u32>)
        ensures
            r@ == pids_of(self.all()),
    {
        let ghost all = self.all();
        let mut out: Vec<u32> = Vec::new();
        assert(pids_of(all.take(0)) =~= out@);
        push_pid(&mut out, &self.pg);
        assert(all.take(1).drop_last() =~= all.take(0));
        assert(out@ == pids_of(all.take(1)));
        push_pid(&mut out, &self.pgb);
        assert(all.take(2).drop_last() =~= all.take(1));
        assert(out@ == pids_of(all.take(2)));
        for i in 0..self.pgb_extra.len()
            invariant
                all == self.all(),
                out@ == pids_of(all.take(i + 2)),
        {
            push_pid(&mut out, &self.pgb_extra[i]);
            assert(all.take(i + 3).drop_last() =~= all.take(i + 2));
            assert(all.take(i + 3).last() == self.pgb_extra@[i as int]);
        }
        let ghost n: int = self.pgb_extra@.len() as int + 2;
        match &self.cdc {
            Some(c) => {
                push_pid(&mut out, c);
                assert(all.take(n + 1).drop_last() =~= all.take(n));
                assert(all.take(n + 1) =~= all);
            },
            None => {
                assert(all.take(n) =~= all);
            },
        }
        out
    }

    /// What an event changes and what is done about it. The server, the first pooler worker and
    /// the process that captures changes are started again with a growing delay; other workers
    /// are only forgotten, since their number is decided by the load.
    pub fn on_event(&mut self, event: Event, now_ns: u64) -> (r: Effect)
        ensures
            event_handled(*old(self), event, now_ns, *final(self), r),
    {
        match event {
            Event::Stop => Effect::Drain,
            Event::PostgresExited => {
                self.pg.on_exit(now_ns);
                Effect::Restart { kind: ChildKind::Postgres, delay_ms: self.pg.backoff_ms() }
            },
            Event::PoolerExited => {
                self.pgb.on_exit(now_ns);
                Effect::Restart { kind: ChildKind::Pooler, delay_ms: self.pgb.backoff_ms() }
            },
            Event::CdcExited => match self.cdc.take() {
                Some(mut c) => {
                    c.on_exit(now_ns);
                    let delay_ms: u64 = c.backoff_ms();
                    self.cdc = Some(c);
                    Effect::Restart { kind: ChildKind::Cdc, delay_ms }
                },
                None => Effect::Nothing,
            },
            Event::ExtraExited(i) => {
                if i < self.pgb_extra.len() {
                    let gone = self.pgb_extra.remove(i);
                    Effect::Forget(gone.name)
                } else {
                    Effect::Nothing
                }
            },
            Event::CertRotated => Effect::Reload(self.pooler_pids()),
        }
    }
}

impl Supervision {
    /// Takes a sample of the CPU time of the running pooler workers, decides about their number,
    /// and carries the decision out. As long as all workers run, there are never more than the
    /// scaler allows.
    pub fn on_tick<S: FnOnce(&'static str) -> Option<ChildState>, R: FnOnce(&ChildState)>(
        &mut self,
        scaler: &mut PgbScaler,
        samples: &Vec<(u32, u64)>,
        now_ns: u64,
        stats: &mut PoolerStats,
        spawn: S,
        reap: R,
    ) -> (r: ScaleOutcome)
        requires
            old(scaler).wf(),
            samples@.len() <= u32::MAX,
            samples@.map_values(|s: (u32, u64)| s.0) == pids_of(old(self).poolers()),
            total_used(old(scaler).prev_ticks@, samples@) <= u64::MAX,
            forall|name: &'static str| spawn.requires((name,)),
            forall|w: &ChildState| reap.requires((w,)),
        ensures
            final(scaler).wf(),
            sample_taken(
                *old(scaler),
                *final(scaler),
                samples@,
                now_ns,
                old(scaler).decision(samples@, now_ns).0,
                old(stats)@,
                final(stats)@,
            ),
            final(self).pg == old(self).pg,
            final(self).pgb == old(self).pgb,
            final(self).cdc == old(self).cdc,
            scale_applied(
                old(scaler).decision(samples@, now_ns).0,
                old(self).pgb_extra@,
                final(self).pgb_extra@,
                r,
                spawn,
                reap,
            ),
            samples@.len() == old(self).poolers().len() && old(self).poolers().len() <= old(
                scaler,
            ).max_workers ==> final(self).poolers().len() <= old(scaler).max_workers,
    {
        let action: ScaleAction = scaler.tick_with(samples, now_ns, stats);
        apply_scale_action(action, &mut self.pgb_extra, spawn, reap)
    }
}

/// Where the listener for control requests comes from.
#[derive(Clone, Copy, Debug, PartialEq, Eq, Structural)]
pub enum ListenerSource {
    /// It was handed down.
    Inherited,
    /// It is made anew.
    Fresh,
}

/// Where the listener for control requests comes from.
pub open spec fn listener_source(is_successor: bool, handed_down: bool) -> Result<
    ListenerSource,
    Seq<char>,
> {
    if handed_down {
        Ok(ListenerSource::Inherited)
    } else if is_successor {
        Err("inherited listener 'rpc' missing from successor"@)
    } else {
        Ok(ListenerSource::Fresh)
    }
}

/// Decides where the listener for control requests comes from: a successor must have been handed
/// one, and a start from nothing uses one if it was.
pub fn rpc_listener_source(is_successor: bool, handed_down: bool) -> (r: Result<
    ListenerSource,
    String,
>)
    ensures
        match r {
            Ok(s) => listener_source(is_successor, handed_down) == Ok::<ListenerSource, Seq<char>>(
                s,
            ),
            Err(m) => listener_source(is_successor, handed_down) == Err::<
                ListenerSource,
                Seq<char>,
            >(m@),
        },
{
    if handed_down {
        Ok(ListenerSource::Inherited)
    } else if is_successor {
        Err(copy_str("inherited listener 'rpc' missing from successor"))
    } else {
        Ok(ListenerSource::Fresh)
    }
}

/// Whether a node forwards its log to a sink.
pub open spec fn forwards(cfg: MmdsConfig) -> bool {
    cfg.pg_tier != PgTier::Replica && cfg.wal_sink is Some
}

/// Whether this node forwards its log to a sink.
pub fn forwards_log(cfg: &MmdsConfig) -> (r: bool)
    ensures
        r == forwards(*cfg),
{
    cfg.pg_tier != PgTier::Replica && cfg.wal_sink.is_some()
}

// ---------------------------------------------------------------------------
// Stopping.
// ---------------------------------------------------------------------------
/// A step of the end.
#[derive(Clone, Copy, Debug, PartialEq, Eq, Structural)]
pub enum StopStep {
    /// Stop forwarding the log. The server waits for those that read its log, so this comes first.
    AbortForwarder,
    DrainChildren,
    StopBackgroundTasks,
    /// Switch the machine off.
    PowerOff,
}

/// The steps of the end.
pub open spec fn end_steps(is_first_process: bool) -> Seq<StopStep> {
    seq![
        StopStep::AbortForwarder,
        StopStep::DrainChildren,
        StopStep::StopBackgroundTasks,
    ] + (if is_first_process {
        seq![StopStep::PowerOff]
    } else {
        seq![]
    })
}

/// Lists the steps of the end. The machine is switched off with its first process.
pub fn stop_steps(is_first_process: bool) -> (r: Vec<StopStep>)
    ensures
        r@ == end_steps(is_first_process),
{
    let mut out: Vec<StopStep> = Vec::new();
    out.push(StopStep::AbortForwarder);
    out.push(StopStep::DrainChildren);
    out.push(StopStep::StopBackgroundTasks);
    if is_first_process {
        out.push(StopStep::PowerOff);
    }
    out
}

/// What to do while children stop.
#[derive(Clone, Copy, Debug, PartialEq, Eq, Structural)]
pub enum DrainStep {
    /// All are gone.
    Done,
    /// Time is up: those that still run are killed.
    Kill,
    /// Look again in a moment.
    Wait,
}

/// The processes that still run; `dead` tells of each whether it is gone.
pub open spec fn still_running(pids: Seq<u32>, dead: Seq<bool>) -> Seq<u32>
    decreases pids.len(),
{
    if pids.len() == 0 {
        seq![]
    } else {
        let before = still_running(pids.drop_last(), dead);
        if dead[pids.len() - 1] {
            before
        } else {
            before.push(pids.last())
        }
    }
}

/// Lists the processes that still run.
pub fn stragglers(pids: &Vec<u32>, dead: &Vec<bool>) -> (r: Vec<u32>)
    requires
        pids@.len() == dead@.len(),
    ensures
        r@ == still_running(pids@, dead@),
{
    let mut out: Vec<u32> = Vec::new();
    for i in 0..pids.len()
        invariant
            pids@.len() == dead@.len(),
            out@ == still_running(pids@.take(i as int), dead@),
    {
        assert(pids@.take(i + 1).drop_last() =~= pids@.take(i as int));
        if !dead[i] {
            out.push(pids[i]);
        }
    }
    assert(pids@.take(pids@.len() as int) =~= pids@);
    out
}

/// How the wait for children to stop goes on.
pub open spec fn drain_decision(pids: Seq<u32>, dead: Seq<bool>, elapsed_ns: u64) -> DrainStep {
    if still_running(pids, dead).len() == 0 {
        DrainStep::Done
    } else if elapsed_ns >= DRAIN_TIMEOUT_NS {
        DrainStep::Kill
    } else {
        DrainStep::Wait
    }
}

/// Decides how the wait for children to stop goes on.
pub fn drain_step(pids: &Vec<u32>, dead: &Vec<bool>, elapsed_ns: u64) -> (r: DrainStep)
    requires
        pids@.len() == dead@.len(),
    ensures
        r == drain_decision(pids@, dead@, elapsed_ns),
{
    if stragglers(pids, dead).len() == 0 {
        DrainStep::Done
    } else if elapsed_ns >= DRAIN_TIMEOUT_NS {
        DrainStep::Kill
    } else {
        DrainStep::Wait
    }
}

/// When the wait is over, no child is left running that was not told to be killed: those that are
/// not killed are gone.
pub proof fn law_no_child_outlives_the_drain(pids: Seq<u32>, dead: Seq<bool>, i: int)
    requires
        pids.len() == dead.len(),
        0 <= i < pids.len(),
    ensures
        dead[i] || still_running(pids, dead).contains(pids[i]),
    decreases pids.len(),
{
    lemma_still_running(pids, dead, i);
}

proof fn lemma_still_running(pids: Seq<u32>, dead: Seq<bool>, i: int)
    requires
        pids.len() <= dead.len(),
        0 <= i < pids.len(),
    ensures
        dead[i] || still_running(pids, dead).contains(pids[i]),
    decreases pids.len(),
{
    let before = still_running(pids.drop_last(), dead);
    let all = still_running(pids, dead);
    if i < pids.len() - 1 {
        lemma_still_running(pids.drop_last(), dead, i);
        if !dead[i] {
            let k = choose|k: int| 0 <= k < before.len() && before[k] == pids[i];
            assert(all[k] == pids[i]);
        }
    } else if !dead[i] {
        assert(all[all.len() - 1] == pids[i]);
    }
}


// ---------------------------------------------------------------------------
// Waiting.
// ---------------------------------------------------------------------------
/// How a wait for something goes on.
#[derive(Clone, Copy, Debug, PartialEq, Eq, Structural)]
pub enum PollStep {
    Ready,
    GiveUp,
    Again,
}

/// How a wait goes on after a try.
pub open spec fn poll_decision(ok: bool, elapsed_ns: u64, timeout_ns: u64) -> PollStep {
    if ok {
        PollStep::Ready
    } else if elapsed_ns >= timeout_ns {
        PollStep::GiveUp
    } else {
        PollStep::Again
    }
}

/// Decides how a wait goes on after a try: success ends it at any time, and a failure at or after
/// the deadline ends it too.
pub fn poll_step(ok: bool, elapsed_ns: u64, timeout_ns: u64) -> (r: PollStep)
    ensures
        r == poll_decision(ok, elapsed_ns, timeout_ns),
{
    if ok {
        PollStep::Ready
    } else if elapsed_ns >= timeout_ns {
        PollStep::GiveUp
    } else {
        PollStep::Again
    }
}

/// The statement that succeeds once the standby of this name is a synchronous one.
pub open spec fn sync_check(name: Seq<char>) -> Seq<char> {
    "DO $$ BEGIN IF NOT EXISTS (SELECT 1 FROM pg_stat_replication WHERE application_name = '"@
        + name + "' AND sync_state IN ('sync','quorum')) THEN RAISE EXCEPTION '"@ + name
        + " not yet a sync standby'; END IF; END $$"@
}

/// The statement that succeeds once the standby of this name is a synchronous one. It raises an
/// exception otherwise: a query without rows would succeed too.
pub fn sync_standby_sql(name: &str) -> (r: String)
    ensures
        r@ == sync_check(name@),
{
    let mut out: String = copy_str(
        "DO $$ BEGIN IF NOT EXISTS (SELECT 1 FROM pg_stat_replication WHERE application_name = '",
    );
    out.append(name);
    out.append("' AND sync_state IN ('sync','quorum')) THEN RAISE EXCEPTION '");
    out.append(name);
    out.append(" not yet a sync standby'; END IF; END $$");
    out
}

// ---------------------------------------------------------------------------
// The first statements.
// ---------------------------------------------------------------------------
/// A step once the server is ready.
#[derive(Debug)]
pub enum PostStep {
    /// Run a statement that holds a secret, over standard input; a failure ends the start with
    /// these words and the failure's own.
    Secret { sql: String, complaint: String },
    /// Run a statement; a failure ends the start likewise.
    Required { sql: String, complaint: String },
    /// Run a statement; a failure is passed over.
    Optional { sql: String },
    /// Run the scripts of a directory; a failure ends the start likewise.
    Hooks { dir: String, complaint: String },
}

/// A step once the server is ready, without its representation.
pub enum PostAction {
    Secret(Seq<char>, Seq<char>),
    Required(Seq<char>, Seq<char>),
    Optional(Seq<char>),
    Hooks(Seq<char>, Seq<char>),
}

impl View for PostStep {
    type V = PostAction;

    open spec fn view(&self) -> PostAction {
        match self {
            PostStep::Secret { sql, complaint } => PostAction::Secret(sql@, complaint@),
            PostStep::Required { sql, complaint } => PostAction::Required(sql@, complaint@),
            PostStep::Optional { sql } => PostAction::Optional(sql@),
            PostStep::Hooks { dir, complaint } => PostAction::Hooks(dir@, complaint@),
        }
    }
}

/// Steps without their representation.
pub open spec fn post_actions(steps: Seq<PostStep>) -> Seq<PostAction> {
    steps.map_values(|s: PostStep| s@)
}

/// The extensions that must be there where they are installed.
pub open spec fn required_extensions() -> Seq<Seq<char>> {
    seq!["beyond_auth"@, "beyond_queue"@, "pg_cron"@]
}

/// The extensions that are used where they can be.
pub open spec fn optional_extensions() -> Seq<Seq<char>> {
    seq![
        "pg_stat_statements"@,
        "auto_explain"@,
        "pg_trgm"@,
        "pgvector"@,
        "pgvectorscale"@,
        "pg_partman"@,
        "pg_jsonschema"@,
        "hypopg"@,
        "pg_repack"@,
        "postgis"@,
        "pg_search"@,
    ]
}

/// The statement that creates an extension.
pub open spec fn create_extension(ext: Seq<char>) -> Seq<char> {
    "CREATE EXTENSION IF NOT EXISTS "@ + ext
}

/// The statements for the extensions that must be there, as far as they are installed.
pub open spec fn required_actions(exts: Seq<Seq<char>>, installed: Seq<String>) -> Seq<PostAction>
    decreases exts.len(),
{
    if exts.len() == 0 {
        seq![]
    } else {
        let before = required_actions(exts.drop_last(), installed);
        let ext = exts.last();
        if listed(installed, ext) {
            before.push(
                PostAction::Required(
                    create_extension(ext),
                    "required extension "@ + ext + " failed: "@,
                ),
            )
        } else {
            before
        }
    }
}

/// The statements for the extensions that are used where they can be.
pub open spec fn optional_actions(exts: Seq<Seq<char>>) -> Seq<PostAction> {
    exts.map_values(|ext: Seq<char>| PostAction::Optional(create_extension(ext)))
}

/// The statement for the pooler's lookup of passwords.
pub open spec fn auth_action(sql: Seq<char>) -> PostAction {
    PostAction::Required(sql, "failed to set up pgbouncer auth: "@)
}

/// The steps once the server is ready, where these extensions are installed.
pub open spec fn post_start_actions(cfg: MmdsConfig, installed: Seq<String>) -> Seq<PostAction> {
    let accounts = seq![
        PostAction::Secret(
            "ALTER ROLE "@ + POSTGRES_USER@ + " WITH PASSWORD $_beyond_$"@
                + cfg.postgres_password@ + "$_beyond_$"@,
            "failed to set postgres password: "@,
        ),
        auth_action(PGBOUNCER_ROLE_SQL@),
        auth_action(PGBOUNCER_SCHEMA_SQL@),
        auth_action(PGBOUNCER_LOOKUP_SQL@),
        auth_action(PGBOUNCER_USAGE_SQL@),
        auth_action(PGBOUNCER_EXECUTE_SQL@),
    ];
    let extended = accounts + required_actions(required_extensions(), installed)
        + optional_actions(optional_extensions());
    let replicated = if cfg.wal_sink is Some || cfg.cdc_enabled {
        extended.push(
            PostAction::Required(REPLICATOR_ROLE_SQL@, "failed to create replicator role: "@),
        )
    } else {
        extended
    };
    let captured = if cfg.cdc_enabled {
        replicated + seq![
            PostAction::Required(CDC_SLOT_SQL@, "failed to create CDC replication slot: "@),
            PostAction::Required(CDC_PUBLICATION_SQL@, "failed to create CDC publication: "@),
        ]
    } else {
        replicated
    };
    captured.push(PostAction::Hooks(HOOKS_POST_START@, "post-start hook failed: "@))
}

/// Where the library of an extension is, if it is installed.
pub fn extension_file(ext: &str) -> (r: String)
    ensures
        r@ == library_file(PKGLIBDIR@, ext@),
{
    library_path(PKGLIBDIR, ext)
}

fn push_step(out: &mut Vec<PostStep>, step: PostStep)
    ensures
        post_actions(final(out)@) == post_actions(old(out)@).push(step@),
{
    out.push(step);
    assert(post_actions(out@) =~= post_actions(old(out)@).push(step@));
}

fn push_required(out: &mut Vec<PostStep>, sql: &str, complaint: &str)
    ensures
        post_actions(final(out)@) == post_actions(old(out)@).push(
            PostAction::Required(sql@, complaint@),
        ),
{
    push_step(out, PostStep::Required { sql: copy_str(sql), complaint: copy_str(complaint) });
}

/// The statement that creates an extension where it is not there yet.
pub fn create_extension_sql(ext: &str) -> (r: String)
    ensures
        r@ == create_extension(ext@),
{
    let mut out: String = copy_str("CREATE EXTENSION IF NOT EXISTS ");
    out.append(ext);
    out
}

fn push_required_extensions(out: &mut Vec<PostStep>, installed: &Vec<String>)
    ensures
        post_actions(final(out)@) == post_actions(old(out)@) + required_actions(
            required_extensions(),
            installed@,
        ),
{
    let ghost base = post_actions(out@);
    let ghost exts = required_extensions();
    let items = ["beyond_auth", "beyond_queue", "pg_cron"];
    assert(literals(items@) =~= exts);
    assert(base + required_actions(exts.take(0), installed@) =~= base);
    for i in 0..items.len()
        invariant
            literals(items@) == exts,
            post_actions(out@) == base + required_actions(exts.take(i as int), installed@),
    {
        let ext: &str = items[i];
        assert(exts.take(i + 1).drop_last() =~= exts.take(i as int));
        assert(exts.take(i + 1).last() == ext@) by {
            assert(literals(items@)[i as int] == items@[i as int]@);
        }
        let cs: Vec<char> = chars_of(ext);
        if is_listed(installed, cs.as_slice()) {
            let mut complaint: String = copy_str("required extension ");
            complaint.append(ext);
            complaint.append(" failed: ");
            push_step(out, PostStep::Required { sql: create_extension_sql(ext), complaint });
        }
        assert(post_actions(out@) =~= base + required_actions(exts.take(i + 1), installed@));
    }
    assert(exts.take(exts.len() as int) =~= exts);
}

fn push_optional_extensions(out: &mut Vec<PostStep>)
    ensures
        post_actions(final(out)@) == post_actions(old(out)@) + optional_actions(
            optional_extensions(),
        ),
{
    let ghost base = post_actions(out@);
    let ghost exts = optional_extensions();
    let items = [
        "pg_stat_statements",
        "auto_explain",
        "pg_trgm",
        "pgvector",
        "pgvectorscale",
        "pg_partman",
        "pg_jsonschema",
        "hypopg",
        "pg_repack",
        "postgis",
        "pg_search",
    ];
    assert(literals(items@) =~= exts);
    assert(base + optional_actions(exts).take(0) =~= base);
    for i in 0..items.len()
        invariant
            literals(items@) == exts,
            post_actions(out@) == base + optional_actions(exts).take(i as int),
    {
        let ext: &str = items[i];
        assert(exts[i as int] == ext@) by {
            assert(literals(items@)[i as int] == items@[i as int]@);
        }
        push_step(out, PostStep::Optional { sql: create_extension_sql(ext) });
        assert(optional_actions(exts).take(i + 1) =~= optional_actions(exts).take(i as int).push(
            PostAction::Optional(create_extension(ext@)),
        ));
        assert(post_actions(out@) =~= base + optional_actions(exts).take(i + 1));
    }
    assert(optional_actions(exts).take(exts.len() as int) =~= optional_actions(exts));
}

/// Lists the steps once the server is ready: the superuser's password, the pooler's lookup of
/// passwords, the extensions, what replication needs, and the scripts. `installed` holds the
/// extensions whose libraries are there. Each statement can be run again.
pub fn post_start(cfg: &MmdsConfig, installed: &Vec<String>) -> (r: Vec<PostStep>)
    ensures
        post_actions(r@) == post_start_actions(*cfg, installed@),
{
    let mut out: Vec<PostStep> = Vec::new();
    assert(post_actions(out@) =~= seq![]);
    push_step(
        &mut out,
        PostStep::Secret {
            sql: alter_role_password_sql(POSTGRES_USER, cfg.postgres_password.as_str()),
            complaint: copy_str("failed to set postgres password: "),
        },
    );
    push_required(&mut out, PGBOUNCER_ROLE_SQL, "failed to set up pgbouncer auth: ");
    push_required(&mut out, PGBOUNCER_SCHEMA_SQL, "failed to set up pgbouncer auth: ");
    push_required(&mut out, PGBOUNCER_LOOKUP_SQL, "failed to set up pgbouncer auth: ");
    push_required(&mut out, PGBOUNCER_USAGE_SQL, "failed to set up pgbouncer auth: ");
    push_required(&mut out, PGBOUNCER_EXECUTE_SQL, "failed to set up pgbouncer auth: ");
    push_required_extensions(&mut out, installed);
    push_optional_extensions(&mut out);
    if cfg.wal_sink.is_some() || cfg.cdc_enabled {
        push_required(&mut out, REPLICATOR_ROLE_SQL, "failed to create replicator role: ");
    }
    if cfg.cdc_enabled {
        push_required(&mut out, CDC_SLOT_SQL, "failed to create CDC replication slot: ");
        push_required(&mut out, CDC_PUBLICATION_SQL, "failed to create CDC publication: ");
    }
    push_step(
        &mut out,
        PostStep::Hooks {
            dir: copy_str(HOOKS_POST_START),
            complaint: copy_str("post-start hook failed: "),
        },
    );
    assert(post_actions(out@) =~= post_start_actions(*cfg, installed@));
    out
}

// ---------------------------------------------------------------------------
// Memory that comes and goes.
// ---------------------------------------------------------------------------
/// The number on a line that starts with `MemTotal:`, if it holds one.
pub open spec fn memtotal_in_line(line: Seq<char>) -> Option<nat> {
    if words(line).len() < 2 {
        None
    } else {
        match parse_decimal(words(line)[1], u64::MAX as nat) {
            Ok(n) => Some(n),
            Err(_) => None,
        }
    }
}

/// The number on the first line that starts with `MemTotal:`.
pub open spec fn memtotal_in_lines(ls: Seq<Seq<char>>) -> Option<nat>
    decreases ls.len(),
{
    if ls.len() == 0 {
        None
    } else if starts_with(ls[0], "MemTotal:"@) {
        memtotal_in_line(ls[0])
    } else {
        memtotal_in_lines(ls.skip(1))
    }
}

/// Reads the machine's memory from `/proc/meminfo`, in units of 1024 bytes.
pub fn parse_memtotal_kib(content: &str) -> (r: Option<u64>)
    ensures
        match r {
            Some(n) => memtotal_in_lines(lines(content@)) == Some(n as nat),
            None => memtotal_in_lines(lines(content@)) is None,
        },
{
    let cs: Vec<char> = chars_of(content);
    let ls: Vec<&[char]> = lines_of(cs.as_slice());
    assert(texts(ls@).skip(0) == texts(ls@));
    for i in 0..ls.len()
        invariant
            texts(ls@) == lines(content@),
            memtotal_in_lines(lines(content@)) == memtotal_in_lines(texts(ls@).skip(i as int)),
    {
        assert(texts(ls@).skip(i as int)[0] == ls@[i as int]@);
        assert(texts(ls@).skip(i as int).skip(1) == texts(ls@).skip(i + 1));
        if after_prefix(ls[i], "MemTotal:").is_some() {
            let ws: Vec<&[char]> = words_of(ls[i]);
            assert(texts(ws@).len() == ws@.len());
            if ws.len() < 2 {
                return None;
            }
            assert(texts(ws@)[1] == ws@[1]@);
            return match read_decimal(ws[1], u64::MAX) {
                Ok(n) => Some(n),
                Err(_) => None,
            };
        }
    }
    None
}

/// The machine's memory in bytes, as `/proc/meminfo` tells it.
pub open spec fn memory_bytes(content: Seq<char>) -> Option<nat> {
    match memtotal_in_lines(lines(content)) {
        Some(n) => Some(n * 1024),
        None => None,
    }
}

/// Reads the machine's memory from `/proc/meminfo`, in bytes.
pub fn read_memtotal_bytes(content: &str) -> (r: Option<u64>)
    requires
        memtotal_in_lines(lines(content@)) matches Some(n) ==> n * 1024 <= u64::MAX,
    ensures
        match r {
            Some(b) => memory_bytes(content@) == Some(b as nat),
            None => memory_bytes(content@) is None,
        },
{
    match parse_memtotal_kib(content) {
        Some(n) => Some(n * 1024),
        None => None,
    }
}

/// Whether memory changed by more than a twentieth, so that the tuning follows it.
pub open spec fn memory_changed(last: u64, now: u64) -> bool {
    let delta = if now >= last {
        now - last
    } else {
        last - now
    };
    delta * 20 > last
}

/// Whether the tuning follows a change of memory. Small changes are passed over.
pub fn memory_update_due(last_ram_bytes: u64, ram_bytes: u64) -> (r: bool)
    ensures
        r == memory_changed(last_ram_bytes, ram_bytes),
{
    let delta: u64 = if ram_bytes >= last_ram_bytes {
        ram_bytes - last_ram_bytes
    } else {
        last_ram_bytes - ram_bytes
    };
    delta as u128 * 20 > last_ram_bytes as u128
}

/// An inherited listener, by the kind of its socket.
#[derive(Clone, Copy, Debug, PartialEq, Eq, Structural)]
pub enum ListenerKind {
    Unix,
    Vsock,
}

/// The kind of a listener of this address family, if it is one.
pub open spec fn kind_of_family(family: i32) -> Option<ListenerKind> {
    if family == 1 {
        Some(ListenerKind::Unix)
    } else if family == 40 {
        Some(ListenerKind::Vsock)
    } else {
        None
    }
}

/// Tells the kind of an inherited listener by its address family.
pub fn listener_kind(family: i32) -> (r: Result<ListenerKind, String>)
    ensures
        match r {
            Ok(k) => kind_of_family(family) == Some(k),
            Err(m) => kind_of_family(family) is None && m@
                == "inherited rpc fd has unexpected socket family: "@ + signed_decimal(
                family as int,
            ),
        },
{
    if family == 1 {
        Ok(ListenerKind::Unix)
    } else if family == 40 {
        Ok(ListenerKind::Vsock)
    } else {
        let mut m: String = copy_str("inherited rpc fd has unexpected socket family: ");
        push_signed(&mut m, family);
        Err(m)
    }
}

// ---------------------------------------------------------------------------
// Laws.
// ---------------------------------------------------------------------------
/// The workers beside the first are numbered from 1 to 7 behind the pooler's own name.
pub proof fn law_extra_names_are_numbered(i: int)
    requires
        0 <= i < 7,
    ensures
        extra_names().len() == 7,
        extra_names()[i] == "pgbouncer-"@ + decimal((i + 1) as nat),
{
    reveal_strlit("pgbouncer-");
    reveal_strlit("pgbouncer-1");
    reveal_strlit("pgbouncer-2");
    reveal_strlit("pgbouncer-3");
    reveal_strlit("pgbouncer-4");
    reveal_strlit("pgbouncer-5");
    reveal_strlit("pgbouncer-6");
    reveal_strlit("pgbouncer-7");
    let d = decimal((i + 1) as nat);
    lemma_one_digit((i + 1) as nat);
    assert(extra_names()[i] =~= "pgbouncer-"@ + d) by {
        if i == 0 {
            assert(d[0] == '1');
        } else if i == 1 {
            assert(d[0] == '2');
        } else if i == 2 {
            assert(d[0] == '3');
        } else if i == 3 {
            assert(d[0] == '4');
        } else if i == 4 {
            assert(d[0] == '5');
        } else if i == 5 {
            assert(d[0] == '6');
        } else {
            assert(d[0] == '7');
        }
    }
}

proof fn lemma_one_digit(n: nat)
    requires
        n < 10,
    ensures
        decimal(n) == seq![('0' as int + n) as char],
{
    reveal_with_fuel(numeral, 2);
}

/// Each name starts the program that it stands for: the server on its data directory, a pooler
/// worker on the file of its own number, and the capture of changes on its slot and publication.
/// No other name starts anything.
#[verifier::rlimit(60)]
pub proof fn law_names_start_their_programs(name: Seq<char>, i: int)
    requires
        0 <= i < 7,
    ensures
        command_line("postgres"@) == Some(seq!["postgres"@, "-D"@, "/var/lib/postgresql/18/main"@]),
        command_line("pgbouncer"@) == Some(seq!["pgbouncer"@, "/etc/pgbouncer/pgbouncer.ini"@]),
        command_line("pgbouncer-"@ + decimal((i + 1) as nat)) == Some(
            seq![
                "pgbouncer"@,
                "/etc/pgbouncer/pgbouncer-"@ + decimal((i + 2) as nat) + ".ini"@,
            ],
        ),
        command_line("beyond-pg-cdc"@) == Some(
            seq![
                "beyond-pg-cdc"@,
                "--slot"@,
                "cdc"@,
                "--publication"@,
                "cdc"@,
                "--http-port"@,
                "9001"@,
            ],
        ),
        name != "postgres"@ && name != "pgbouncer"@ && name != "beyond-pg-cdc"@
            && !extra_names().contains(name) ==> command_line(name) is None,
{
    law_extra_names_are_numbered(i);
    let extra = extra_names()[i];
    assert(extra_names().contains(extra));
    let k = extra_names().index_of(extra);
    assert(0 <= k < extra_names().len() && extra_names()[k] == extra);
    lemma_extra_names_differ(i, k);
    lemma_plain_names(extra, i);
    assert forall|j: int| 0 <= j < 7 implies extra_names()[j] != "pgbouncer"@ && extra_names()[j]
        != "beyond-pg-cdc"@ && extra_names()[j] != "postgres"@ by {
        lemma_plain_names(extra_names()[j], j);
    }
    reveal_strlit("postgres");
    reveal_strlit("pgbouncer");
    reveal_strlit("beyond-pg-cdc");
    assert("postgres"@.len() == 8 && "pgbouncer"@.len() == 9 && "beyond-pg-cdc"@.len() == 13);
}

proof fn lemma_plain_names(extra: Seq<char>, i: int)
    requires
        0 <= i < 7,
        extra == extra_names()[i],
    ensures
        extra != "postgres"@,
        extra != "pgbouncer"@,
        extra != "beyond-pg-cdc"@,
{
    reveal_strlit("pgbouncer-1");
    reveal_strlit("pgbouncer-2");
    reveal_strlit("pgbouncer-3");
    reveal_strlit("pgbouncer-4");
    reveal_strlit("pgbouncer-5");
    reveal_strlit("pgbouncer-6");
    reveal_strlit("pgbouncer-7");
    reveal_strlit("postgres");
    reveal_strlit("pgbouncer");
    reveal_strlit("beyond-pg-cdc");
    assert(extra.len() == 11);
}

/// The first restart waits a tenth of a second, each further one twice as long as the one before,
/// and from the ninth on as long as that.
pub proof fn law_delay_doubles(n: u32)
    ensures
        backoff(0) == 100,
        n < 8 ==> backoff((n + 1) as u32) == 2 * backoff(n),
        n >= 8 ==> backoff(n) == 25_600,
{
    lemma2_to64();
    if n < 8 {
        lemma_pow2_unfold((n + 1) as nat);
        if n + 1 < 8 {
            lemma_pow2_strictly_increases((n + 1) as nat, 8);
        }
        if n < 8 {
            lemma_pow2_strictly_increases(n as nat, 8);
        }
    }
}

/// A child that ran for a minute before it ended is started again without the delays that its
/// earlier restarts earned; one that ran shorter keeps them. It keeps its name and has no process.
pub proof fn law_a_minute_forgives(c: ChildState, now_ns: u64)
    ensures
        ({
            let after = exited(c, now_ns);
            &&& after.pid is None && after.name == c.name && after.last_start_ns == c.last_start_ns
            &&& (c.last_start_ns matches Some(t) && now_ns >= t + 60_000_000_000)
                ==> after.restart_count == 0
            &&& !(c.last_start_ns matches Some(t) && now_ns >= t + 60_000_000_000)
                ==> after.restart_count == c.restart_count
        }),
{
}

/// Whatever happens, only what it happened to changes. The server, the first pooler worker and the
/// capture of changes are started again after their delay, which lies between 100 and 25600 ms; a
/// worker beside the first is forgotten under its own name; a new certificate reaches every pooler
/// worker that runs and no other process; and only a request to stop ends everything.
#[verifier::rlimit(60)]
pub proof fn law_events_are_answered(
    before: Supervision,
    event: Event,
    now_ns: u64,
    after: Supervision,
    effect: Effect,
    pid: u32,
)
    requires
        event_handled(before, event, now_ns, after, effect),
    ensures
        effect == Effect::Drain <==> event == Event::Stop,
        event != Event::PostgresExited ==> after.pg == before.pg,
        event != Event::PoolerExited ==> after.pgb == before.pgb,
        event != Event::CdcExited ==> after.cdc == before.cdc,
        !(event is ExtraExited) ==> after.pgb_extra == before.pgb_extra,
        effect is Restart <==> event == Event::PostgresExited || event == Event::PoolerExited || (
        event == Event::CdcExited && before.cdc is Some),
        effect matches Effect::Restart { kind, delay_ms } ==> 100 <= delay_ms <= 25_600 && (kind
            == ChildKind::Postgres <==> event == Event::PostgresExited) && (kind
            == ChildKind::Pooler <==> event == Event::PoolerExited),
        event == Event::PostgresExited ==> after.pg.pid is None,
        event == Event::PoolerExited ==> after.pgb.pid is None,
        event matches Event::ExtraExited(i) ==> (i < before.pgb_extra@.len() ==> effect
            == Effect::Forget(before.pgb_extra@[i as int].name) && after.pgb_extra@.len()
            == before.pgb_extra@.len() - 1),
        event == Event::CertRotated ==> (effect matches Effect::Reload(pids) && (pids@.contains(pid)
            <==> before.pgb.pid == Some(pid) || exists|i: int|
            0 <= i < before.pgb_extra@.len() && (#[trigger] before.pgb_extra@[i]).pid == Some(
                pid,
            ))),
{
    law_backoff_grows_within_bounds(0, exited(before.pg, now_ns).restart_count);
    law_backoff_grows_within_bounds(0, exited(before.pgb, now_ns).restart_count);
    law_delay_doubles(exited(before.pg, now_ns).restart_count);
    law_delay_doubles(exited(before.pgb, now_ns).restart_count);
    lemma_backoff_most(exited(before.pg, now_ns).restart_count);
    lemma_backoff_most(exited(before.pgb, now_ns).restart_count);
    if let Some(c) = before.cdc {
        law_backoff_grows_within_bounds(0, exited(c, now_ns).restart_count);
        lemma_backoff_most(exited(c, now_ns).restart_count);
    }
    let all = before.poolers();
    law_processes_of_children(all, pid);
    if event == Event::CertRotated {
        assert(all[0] == before.pgb);
        if before.pgb.pid == Some(pid) {
            assert(all[0].pid == Some(pid));
        }
        if exists|i: int| 0 <= i < before.pgb_extra@.len() && (#[trigger] before.pgb_extra@[i]).pid
            == Some(pid) {
            let i = choose|i: int|
                0 <= i < before.pgb_extra@.len() && (#[trigger] before.pgb_extra@[i]).pid == Some(
                    pid,
                );
            assert(all[i + 1].pid == Some(pid));
        }
        if pids_of(all).contains(pid) {
            let i = choose|i: int| 0 <= i < all.len() && (#[trigger] all[i]).pid == Some(pid);
            if i > 0 {
                assert(before.pgb_extra@[i - 1].pid == Some(pid));
            }
        }
    }
}

proof fn lemma_backoff_most(n: u32)
    ensures
        backoff(n) <= 25_600,
{
    law_delay_doubles(8);
    if n < 8 {
        law_backoff_grows_within_bounds(n, 8);
    } else {
        law_delay_doubles(n);
    }
}

/// The processes of children are those of the children that run, and no others.
pub proof fn law_processes_of_children(children: Seq<ChildState>, pid: u32)
    ensures
        pids_of(children).contains(pid) <==> exists|i: int|
            0 <= i < children.len() && (#[trigger] children[i]).pid == Some(pid),
    decreases children.len(),
{
    if children.len() > 0 {
        let rest = children.drop_last();
        let last = children[children.len() - 1];
        law_processes_of_children(rest, pid);
        let before = pids_of(rest);
        let all = pids_of(children);
        if before.contains(pid) {
            let k = choose|k: int| 0 <= k < before.len() && before[k] == pid;
            assert(all[k] == pid);
            let i = choose|i: int| 0 <= i < rest.len() && (#[trigger] rest[i]).pid == Some(pid);
            assert(children[i].pid == Some(pid));
        }
        if last.pid == Some(pid) {
            assert(all[all.len() - 1] == pid);
            assert(children[children.len() - 1].pid == Some(pid));
        }
        if all.contains(pid) {
            let k = choose|k: int| 0 <= k < all.len() && all[k] == pid;
            if k < before.len() {
                assert(before[k] == pid);
            }
        }
        if exists|i: int| 0 <= i < children.len() && (#[trigger] children[i]).pid == Some(pid) {
            let i = choose|i: int|
                0 <= i < children.len() && (#[trigger] children[i]).pid == Some(pid);
            if i < rest.len() {
                assert(rest[i].pid == Some(pid));
            }
        }
    } else {
        assert(!pids_of(children).contains(pid));
    }
}

/// After a restart as many workers are started as ran before, but no more than the machine has room
/// for: one worker for each four CPUs, at least one and at most eight, the first one not counted.
pub proof fn law_warm_start_fits_the_machine(prior: int, vcpus: u32)
    requires
        prior >= 0,
    ensures
        ({
            let room: int = if vcpus < 8 {
                0
            } else if vcpus >= 32 {
                7
            } else {
                vcpus as int / 4 - 1
            };
            &&& prior <= room ==> warm_extras(prior, vcpus) == prior
            &&& prior > room ==> warm_extras(prior, vcpus) == room
        }),
{
}

/// What is started follows the settings: the log is forwarded, with a wait of half a minute for the
/// sink, exactly on a node that is no replica and has a sink; the first statements are run exactly
/// on one that is no replica; changes are captured exactly on one that is no replica and is set to;
/// the server, the pooler and its workers are always started, each step once.
pub proof fn law_start_follows_the_settings(cfg: MmdsConfig, extras: usize)
    ensures
        ({
            let s = cold_steps(cfg, extras);
            let forwarding = cfg.pg_tier != PgTier::Replica && cfg.wal_sink is Some;
            &&& s.contains(ColdStep::StartForwarder) <==> forwarding
            &&& s.contains(ColdStep::WaitSyncStandby(30)) <==> forwarding
            &&& forwards(cfg) <==> forwarding
            &&& s.contains(ColdStep::PostStart) <==> cfg.pg_tier != PgTier::Replica
            &&& s.contains(ColdStep::SpawnCdc) <==> cfg.pg_tier != PgTier::Replica
                && cfg.cdc_enabled
            &&& s.contains(ColdStep::Boot) && s.contains(ColdStep::SpawnPostgres)
            &&& s.contains(ColdStep::WaitReady(60)) && s.contains(ColdStep::SpawnPooler)
            &&& s.contains(ColdStep::SpawnExtras(extras))
            &&& s.no_duplicates()
            &&& forall|i: int, j: int|
                0 <= i < s.len() && 0 <= j < s.len() && s[i] == ColdStep::SpawnPooler && s[j]
                    == ColdStep::SpawnExtras(extras) ==> i < j
            &&& forall|i: int, j: int|
                0 <= i < s.len() && 0 <= j < s.len() && s[i] == ColdStep::StartForwarder && s[j]
                    == ColdStep::WaitSyncStandby(30) ==> i < j
        }),
{
    let s = cold_steps(cfg, extras);
    assert(s[0] == ColdStep::Boot && s[1] == ColdStep::SpawnPostgres && s[2]
        == ColdStep::WaitReady(60));
    let k = if cfg.pg_tier == PgTier::Replica {
        3int
    } else if cfg.wal_sink is Some {
        assert(s[3] == ColdStep::StartForwarder && s[4] == ColdStep::WaitSyncStandby(30));
        assert(s[5] == ColdStep::PostStart);
        6int
    } else {
        assert(s[3] == ColdStep::PostStart);
        4int
    };
    assert(s[k] == ColdStep::SpawnPooler && s[k + 1] == ColdStep::SpawnExtras(extras));
    if cfg.pg_tier != PgTier::Replica && cfg.cdc_enabled {
        assert(s[k + 2] == ColdStep::SpawnCdc);
    }
}

/// A successor takes over the server and the first pooler worker always, a worker beside the first
/// exactly if it is recorded, and the capture of changes exactly if it is recorded and the node is
/// set to capture them.
pub proof fn law_successor_takes_over(
    prior: Map<Seq<char>, ChildRecord>,
    cfg: MmdsConfig,
    i: int,
)
    requires
        0 <= i < 7,
    ensures
        ({
            let taken = inherited(prior, cfg);
            &&& taken.contains("postgres"@) && taken.contains("pgbouncer"@)
            &&& taken.contains(extra_names()[i]) <==> prior.contains_key(extra_names()[i])
            &&& taken.contains("beyond-pg-cdc"@) <==> cfg.pg_tier != PgTier::Replica
                && cfg.cdc_enabled && prior.contains_key("beyond-pg-cdc"@)
        }),
{
    let taken = inherited(prior, cfg);
    let extras = extras_in(prior, 7);
    let name = extra_names()[i];
    assert(taken[0] == "postgres"@ && taken[1] == "pgbouncer"@);
    lemma_plain_names(name, i);
    lemma_extras_in(prior, 7, name);
    lemma_extras_in(prior, 7, "beyond-pg-cdc"@);
    lemma_extras_in(prior, 7, "postgres"@);
    assert forall|j: int| 0 <= j < 7 implies extra_names()[j] != "beyond-pg-cdc"@ by {
        lemma_plain_names(extra_names()[j], j);
    }
    assert(extra_names()[i] == name);
    if extras.contains(name) {
        let k = choose|k: int| 0 <= k < extras.len() && extras[k] == name;
        assert(taken[k + 2] == name);
    }
    if taken.contains(name) {
        let k = choose|k: int| 0 <= k < taken.len() && taken[k] == name;
        if 2 <= k < 2 + extras.len() {
            assert(extras[k - 2] == name);
        }
    }
    if cfg.pg_tier != PgTier::Replica && cfg.cdc_enabled && prior.contains_key("beyond-pg-cdc"@) {
        assert(taken[taken.len() - 1] == "beyond-pg-cdc"@);
    }
    if taken.contains("beyond-pg-cdc"@) {
        let k = choose|k: int| 0 <= k < taken.len() && taken[k] == "beyond-pg-cdc"@;
        reveal_strlit("postgres");
        reveal_strlit("pgbouncer");
        reveal_strlit("beyond-pg-cdc");
        assert("postgres"@.len() == 8 && "pgbouncer"@.len() == 9 && "beyond-pg-cdc"@.len() == 13);
        if 2 <= k < 2 + extras.len() {
            assert(extras[k - 2] == "beyond-pg-cdc"@);
        }
    }
}

proof fn lemma_extras_in(prior: Map<Seq<char>, ChildRecord>, n: nat, name: Seq<char>)
    requires
        n <= 7,
    ensures
        extras_in(prior, n).contains(name) <==> prior.contains_key(name) && exists|j: int|
            0 <= j < n && #[trigger] extra_names()[j] == name,
    decreases n,
{
    if n > 0 {
        lemma_extras_in(prior, (n - 1) as nat, name);
        let before = extras_in(prior, (n - 1) as nat);
        let all = extras_in(prior, n);
        let last = extra_names()[n - 1];
        if before.contains(name) {
            let k = choose|k: int| 0 <= k < before.len() && before[k] == name;
            assert(all[k] == name);
        }
        if last == name && prior.contains_key(name) {
            assert(all[all.len() - 1] == name);
        }
        if all.contains(name) {
            let k = choose|k: int| 0 <= k < all.len() && all[k] == name;
            if k < before.len() {
                assert(before[k] == name);
            }
        }
    }
}

/// A child that cannot be taken over is started anew as what its name stands for, and a name that
/// stands for nothing is refused.
pub proof fn law_lost_child_is_started_anew(
    name: Seq<char>,
    record: Option<ChildRecord>,
    probe: ProcessProbe,
)
    requires
        record is None || !(probe is Stat),
    ensures
        name == "postgres"@ ==> adoption(name, record, probe) == Ok::<Adoption, AdoptionFault>(
            Adoption::Respawn(ChildKind::Postgres),
        ),
        extra_names().contains(name) ==> adoption(name, record, probe) == Ok::<
            Adoption,
            AdoptionFault,
        >(Adoption::Respawn(ChildKind::Pooler)),
        name == "pgbouncer"@ ==> adoption(name, record, probe) == Ok::<Adoption, AdoptionFault>(
            Adoption::Respawn(ChildKind::Pooler),
        ),
        name == "beyond-pg-cdc"@ ==> adoption(name, record, probe) == Ok::<Adoption, AdoptionFault>(
            Adoption::Respawn(ChildKind::Cdc),
        ),
        command_line(name) is None ==> adoption(name, record, probe) is Err,
{
    reveal_strlit("postgres");
    reveal_strlit("pgbouncer");
    reveal_strlit("beyond-pg-cdc");
    assert("postgres"@.len() == 8 && "pgbouncer"@.len() == 9 && "beyond-pg-cdc"@.len() == 13);
    if extra_names().contains(name) {
        let i = choose|i: int| 0 <= i < extra_names().len() && extra_names()[i] == name;
        lemma_plain_names(name, i);
    }
    if name == "beyond-pg-cdc"@ && extra_names().contains(name) {
        let i = choose|i: int| 0 <= i < extra_names().len() && extra_names()[i] == name;
        lemma_plain_names(name, i);
    }
}

/// A listener that was handed down is used; without one a successor fails, and a start from nothing
/// makes its own.
pub proof fn law_listener_is_handed_down(is_successor: bool, handed_down: bool)
    ensures
        handed_down ==> listener_source(is_successor, handed_down) == Ok::<
            ListenerSource,
            Seq<char>,
        >(ListenerSource::Inherited),
        !handed_down && !is_successor ==> listener_source(is_successor, handed_down) == Ok::<
            ListenerSource,
            Seq<char>,
        >(ListenerSource::Fresh),
        !handed_down && is_successor ==> listener_source(is_successor, handed_down) is Err,
{
}

/// At the end the log is no longer forwarded before children are stopped, since the server would
/// wait for that; and the machine is switched off, as the very last step, exactly if this was its
/// first process.
pub proof fn law_order_of_end(is_first_process: bool)
    ensures
        ({
            let s = end_steps(is_first_process);
            &&& s[0] == StopStep::AbortForwarder
            &&& s[1] == StopStep::DrainChildren
            &&& s.contains(StopStep::PowerOff) <==> is_first_process
            &&& is_first_process ==> s.last() == StopStep::PowerOff
            &&& s.contains(StopStep::StopBackgroundTasks)
        }),
{
    let s = end_steps(is_first_process);
    assert(s[2] == StopStep::StopBackgroundTasks);
    if is_first_process {
        assert(s[3] == StopStep::PowerOff);
    }
}

/// Children have ten seconds to stop. The wait ends at once when all are gone, and not before the
/// ten seconds are over while one still runs; then those that run are killed.
pub proof fn law_drain_takes_ten_seconds(pids: Seq<u32>, dead: Seq<bool>, elapsed_ns: u64)
    requires
        pids.len() == dead.len(),
    ensures
        ({
            let all_gone = forall|i: int| 0 <= i < dead.len() ==> #[trigger] dead[i];
            let step = drain_decision(pids, dead, elapsed_ns);
            &&& all_gone ==> step == DrainStep::Done
            &&& !all_gone && elapsed_ns < 10_000_000_000 ==> step == DrainStep::Wait
            &&& !all_gone && elapsed_ns >= 10_000_000_000 ==> step == DrainStep::Kill
        }),
{
    if forall|i: int| 0 <= i < dead.len() ==> #[trigger] dead[i] {
        lemma_none_running(pids, dead);
    } else {
        let i = choose|i: int| 0 <= i < dead.len() && !#[trigger] dead[i];
        law_no_child_outlives_the_drain(pids, dead, i);
    }
}

proof fn lemma_none_running(pids: Seq<u32>, dead: Seq<bool>)
    requires
        pids.len() <= dead.len(),
        forall|i: int| 0 <= i < dead.len() ==> #[trigger] dead[i],
    ensures
        still_running(pids, dead).len() == 0,
    decreases pids.len(),
{
    if pids.len() > 0 {
        lemma_none_running(pids.drop_last(), dead);
        assert(dead[pids.len() - 1]);
    }
}

/// Only processes that are not gone are killed.
pub proof fn law_only_the_living_are_killed(pids: Seq<u32>, dead: Seq<bool>, pid: u32)
    requires
        pids.len() <= dead.len(),
    ensures
        still_running(pids, dead).contains(pid) ==> exists|i: int|
            0 <= i < pids.len() && #[trigger] pids[i] == pid && !dead[i],
    decreases pids.len(),
{
    if pids.len() > 0 {
        let before = still_running(pids.drop_last(), dead);
        let all = still_running(pids, dead);
        law_only_the_living_are_killed(pids.drop_last(), dead, pid);
        if all.contains(pid) {
            let k = choose|k: int| 0 <= k < all.len() && all[k] == pid;
            if k < before.len() {
                assert(before.contains(before[k]));
                let i = choose|i: int|
                    0 <= i < pids.drop_last().len() && #[trigger] pids.drop_last()[i] == pid
                        && !dead[i];
                assert(pids[i] == pid);
            } else {
                assert(pids[pids.len() - 1] == pid);
            }
        }
    }
}

/// A wait ends with success as soon as a try succeeds, and is given up on the first failure once
/// the time is up, never before.
pub proof fn law_wait_ends(ok: bool, elapsed_ns: u64, timeout_ns: u64)
    ensures
        ok <==> poll_decision(ok, elapsed_ns, timeout_ns) == PollStep::Ready,
        !ok && elapsed_ns < timeout_ns <==> poll_decision(ok, elapsed_ns, timeout_ns)
            == PollStep::Again,
{
}

/// Once the server is ready the superuser has the configured password, whatever it was before; the
/// pooler can look up passwords; an extension that must be there is made where it is
/// installed; the role for replication is made exactly if a sink or the capture of changes needs it;
/// the slot and the publication exactly if changes are captured; and the scripts run last.
#[verifier::rlimit(60)]
pub proof fn law_server_is_prepared(cfg: MmdsConfig, installed: Seq<String>)
    ensures
        ({
            let s = post_start_actions(cfg, installed);
            &&& s[0] == PostAction::Secret(
                "ALTER ROLE "@ + "postgres"@ + " WITH PASSWORD $_beyond_$"@
                    + cfg.postgres_password@ + "$_beyond_$"@,
                "failed to set postgres password: "@,
            )
            &&& s[1] == auth_action(PGBOUNCER_ROLE_SQL@) && s[2] == auth_action(
                PGBOUNCER_SCHEMA_SQL@,
            ) && s[3] == auth_action(PGBOUNCER_LOOKUP_SQL@) && s[4] == auth_action(
                PGBOUNCER_USAGE_SQL@,
            ) && s[5] == auth_action(PGBOUNCER_EXECUTE_SQL@)
            &&& s.last() is Hooks
            &&& s.last()->Hooks_0 == "/etc/postgresql/18/hooks/post-start.d"@
            &&& s.contains(
                PostAction::Required(REPLICATOR_ROLE_SQL@, "failed to create replicator role: "@),
            ) <==> cfg.wal_sink is Some || cfg.cdc_enabled
            &&& s.contains(
                PostAction::Required(CDC_SLOT_SQL@, "failed to create CDC replication slot: "@),
            ) <==> cfg.cdc_enabled
            &&& s.contains(
                PostAction::Required(CDC_PUBLICATION_SQL@, "failed to create CDC publication: "@),
            ) <==> cfg.cdc_enabled
            &&& listed(installed, "beyond_auth"@) ==> exists|i: int|
                0 <= i < s.len() && #[trigger] s[i] is Required && s[i]->Required_0
                    == "CREATE EXTENSION IF NOT EXISTS "@ + "beyond_auth"@
            &&& listed(installed, "beyond_queue"@) ==> exists|i: int|
                0 <= i < s.len() && #[trigger] s[i] is Required && s[i]->Required_0
                    == "CREATE EXTENSION IF NOT EXISTS "@ + "beyond_queue"@
            &&& listed(installed, "pg_cron"@) ==> exists|i: int|
                0 <= i < s.len() && #[trigger] s[i] is Required && s[i]->Required_0
                    == "CREATE EXTENSION IF NOT EXISTS "@ + "pg_cron"@
        }),
{
    let s = post_start_actions(cfg, installed);
    let exts = required_extensions();
    let required = required_actions(exts, installed);
    let optional = optional_actions(optional_extensions());
    let n = 6 + required.len() as int + optional.len() as int;
    lemma_complaints_differ();
    lemma_required_extensions(exts, installed);
    assert forall|i: int| 0 <= i < n implies {
        ||| !(#[trigger] s[i] is Required)
        ||| s[i]->Required_1 == "failed to set up pgbouncer auth: "@
        ||| s[i]->Required_1.len() > 0 && s[i]->Required_1[0] == 'r'
    } by {
        if 6 <= i < 6 + required.len() {
            assert(s[i] == required[i - 6]);
        } else if i >= 6 + required.len() {
            assert(s[i] == optional[i - 6 - required.len()]);
        }
    }
    let role = PostAction::Required(REPLICATOR_ROLE_SQL@, "failed to create replicator role: "@);
    let slot = PostAction::Required(CDC_SLOT_SQL@, "failed to create CDC replication slot: "@);
    let publication = PostAction::Required(
        CDC_PUBLICATION_SQL@,
        "failed to create CDC publication: "@,
    );
    if cfg.wal_sink is Some || cfg.cdc_enabled {
        assert(s[n] == role);
    }
    if cfg.cdc_enabled {
        assert(s[n + 1] == slot && s[n + 2] == publication);
    }
    assert forall|k: int| 0 <= k < exts.len() && listed(installed, #[trigger] exts[k]) implies exists|
        i: int,
    |
        0 <= i < s.len() && #[trigger] s[i] is Required && s[i]->Required_0
            == "CREATE EXTENSION IF NOT EXISTS "@ + exts[k] by {
        let m = choose|m: int|
            0 <= m < required.len() && #[trigger] required[m] is Required
                && required[m]->Required_0 == create_extension(exts[k]);
        assert(s[m + 6] == required[m]);
    }
    assert(exts[0] == "beyond_auth"@ && exts[1] == "beyond_queue"@ && exts[2] == "pg_cron"@);
}

proof fn lemma_complaints_differ()
    ensures
        "failed to set up pgbouncer auth: "@ != "failed to create replicator role: "@,
        "failed to set up pgbouncer auth: "@ != "failed to create CDC replication slot: "@,
        "failed to set up pgbouncer auth: "@ != "failed to create CDC publication: "@,
        "failed to create replicator role: "@ != "failed to create CDC replication slot: "@,
        "failed to create replicator role: "@ != "failed to create CDC publication: "@,
        "failed to create CDC replication slot: "@ != "failed to create CDC publication: "@,
        "failed to create replicator role: "@[0] == 'f',
        "failed to create CDC replication slot: "@[0] == 'f',
        "failed to create CDC publication: "@[0] == 'f',
{
    reveal_strlit("failed to set up pgbouncer auth: ");
    reveal_strlit("failed to create replicator role: ");
    reveal_strlit("failed to create CDC replication slot: ");
    reveal_strlit("failed to create CDC publication: ");
    assert("failed to set up pgbouncer auth: "@[10] == 's');
    assert("failed to create replicator role: "@[10] == 'c');
    assert("failed to create CDC replication slot: "@[10] == 'c');
    assert("failed to create CDC publication: "@[10] == 'c');
    assert("failed to create replicator role: "@[17] == 'r');
    assert("failed to create CDC replication slot: "@[17] == 'C');
    assert("failed to create CDC publication: "@[17] == 'C');
    assert("failed to create CDC replication slot: "@[21] == 'r');
    assert("failed to create CDC publication: "@[21] == 'p');
}

proof fn lemma_required_extensions(exts: Seq<Seq<char>>, installed: Seq<String>)
    ensures
        ({
            let actions = required_actions(exts, installed);
            &&& forall|i: int|
                0 <= i < actions.len() ==> #[trigger] actions[i] is Required
                    && actions[i]->Required_1.len() > 0 && actions[i]->Required_1[0] == 'r'
            &&& forall|k: int|
                0 <= k < exts.len() && listed(installed, #[trigger] exts[k]) ==> exists|m: int|
                    0 <= m < actions.len() && #[trigger] actions[m] is Required
                        && actions[m]->Required_0 == create_extension(exts[k])
        }),
    decreases exts.len(),
{
    if exts.len() > 0 {
        reveal_strlit("required extension ");
        let init = exts.drop_last();
        lemma_required_extensions(init, installed);
        let before = required_actions(init, installed);
        let actions = required_actions(exts, installed);
        assert forall|i: int| 0 <= i < actions.len() implies #[trigger] actions[i] is Required
            && actions[i]->Required_1.len() > 0 && actions[i]->Required_1[0] == 'r' by {
            if i < before.len() {
                assert(actions[i] == before[i]);
            }
        }
        assert forall|k: int|
            0 <= k < exts.len() && listed(installed, #[trigger] exts[k]) implies exists|m: int|
            0 <= m < actions.len() && #[trigger] actions[m] is Required && actions[m]->Required_0
                == create_extension(exts[k]) by {
            if k < init.len() {
                assert(init[k] == exts[k]);
                let m = choose|m: int|
                    0 <= m < before.len() && #[trigger] before[m] is Required
                        && before[m]->Required_0 == create_extension(init[k]);
                assert(actions[m] == before[m]);
            } else {
                assert(actions[actions.len() - 1]->Required_0 == create_extension(exts[k]));
            }
        }
    }
}

/// The tuning follows a change of memory by more than a twentieth in either direction, and no
/// smaller one.
pub proof fn law_tuning_follows_memory(last: u64, now: u64)
    ensures
        memory_changed(last, now) <==> 20 * now > 21 * last || 20 * now < 19 * last,
        !memory_changed(last, last),
{
}

/// The memory that `/proc/meminfo` tells behind `MemTotal:`, in units of 1024 bytes, is read
/// wherever the line stands, behind lines for other things.
#[verifier::rlimit(60)]
pub proof fn law_memory_is_read(before: Seq<char>, n: nat, after: Seq<char>)
    requires
        n <= u64::MAX,
        before.len() > 0 ==> before.last() == '\n',
        forall|i: int|
            0 <= i < lines(before).len() ==> !starts_with(#[trigger] lines(before)[i], "MemTotal:"@),
    ensures
        memory_bytes(before + ("MemTotal: "@ + decimal(n) + " kB"@).push('\n') + after) == Some(
            n * 1024,
        ),
{
    let line = "MemTotal: "@ + decimal(n) + " kB"@;
    let content = before + line.push('\n') + after;
    lemma_numeral_first(n, 10, false);
    reveal_strlit("MemTotal:");
    reveal_strlit("MemTotal: ");
    reveal_strlit(" kB");
    let d = decimal(n);
    assert forall|j: int| 0 <= j < d.len() implies #[trigger] d[j] != '\n' && !is_white(d[j]) by {
        assert(digit_value(d[j]) < 16);
    }
    assert forall|j: int| 0 <= j < line.len() implies #[trigger] line[j] != '\n' by {
        if 10 <= j < 10 + d.len() {
            assert(line[j] == d[j - 10]);
        }
    }
    lemma_lines_first(line, after);
    lemma_lines_concat(before, line.push('\n') + after);
    assert(content =~= before + (line.push('\n') + after));
    assert(strip_cr(line) == line);
    let ls = lines(content);
    lemma_memtotal_found(lines(before), seq![line] + lines(after));
    assert(ls =~= lines(before) + (seq![line] + lines(after)));
    assert(line.take(9) =~= "MemTotal:"@);
    let rest = " "@ + (d + " kB"@);
    reveal_strlit(" ");
    assert(line =~= "MemTotal:"@ + rest);
    assert(is_white(' '));
    lemma_first_word("MemTotal:"@, rest);
    lemma_words_behind_space(d + " kB"@);
    lemma_first_word(d, " kB"@);
    assert(words(line)[1] == d);
    law_numeral_reads_back(n, 10, false, u64::MAX as nat);
}

proof fn lemma_memtotal_found(before: Seq<Seq<char>>, rest: Seq<Seq<char>>)
    requires
        forall|i: int| 0 <= i < before.len() ==> !starts_with(#[trigger] before[i], "MemTotal:"@),
    ensures
        memtotal_in_lines(before + rest) == memtotal_in_lines(rest),
    decreases before.len(),
{
    let all = before + rest;
    if before.len() == 0 {
        assert(all =~= rest);
    } else {
        let tail = before.skip(1);
        assert(!starts_with(before[0], "MemTotal:"@));
        assert(all[0] == before[0]);
        assert(all.skip(1) =~= tail + rest);
        assert forall|i: int| 0 <= i < tail.len() implies !starts_with(
            #[trigger] tail[i],
            "MemTotal:"@,
        ) by {
            assert(tail[i] == before[i + 1]);
        }
        lemma_memtotal_found(tail, rest);
    }
}

/// Each start is counted, so that the delay grows with every start that is not followed by a minute of
/// running; a child that was taken over has none to its account. Whoever it is, it keeps its name, has
/// the process that was told, and started when it was told.
pub proof fn law_starts_are_counted(c: ChildState, pid: Option<u32>, p: u32, now_ns: u64)
    ensures
        c.restart_count < u32::MAX ==> started(c, pid, now_ns).restart_count == c.restart_count + 1,
        started(c, pid, now_ns).pid == pid && started(c, pid, now_ns).name == c.name,
        started(c, pid, now_ns).last_start_ns == Some(now_ns),
        taken_over(c, p, now_ns).restart_count == 0 && taken_over(c, p, now_ns).pid == Some(p),
        taken_over(c, p, now_ns).last_start_ns == Some(now_ns) && taken_over(c, p, now_ns).name
            == c.name,
{
}

/// A child that ends at once whenever it is started waits twice as long before each start.
pub proof fn law_failing_child_waits_longer(c: ChildState, pid: Option<u32>, then_ns: u64, now_ns: u64)
    requires
        now_ns < then_ns + 60_000_000_000,
        c.restart_count < 8,
    ensures
        backoff(exited(started(c, pid, then_ns), now_ns).restart_count) == 2 * backoff(
            c.restart_count,
        ),
{
    law_delay_doubles(c.restart_count);
}

/// A worker is added only where one was asked for and there is a name for it, which counts the workers
/// beside the first; the worker that goes is the one that came last; and no other worker is touched.
pub proof fn law_last_worker_goes_first<
    S: FnOnce(&'static str) -> Option<ChildState>,
    R: FnOnce(&ChildState),
>(
    action: ScaleAction,
    before: Seq<ChildState>,
    after: Seq<ChildState>,
    outcome: ScaleOutcome,
    spawn: S,
    reap: R,
)
    requires
        scale_applied(action, before, after, outcome, spawn, reap),
    ensures
        outcome matches ScaleOutcome::SpawnedUp(name) ==> action == ScaleAction::Up && before.len()
            < 7 && name@ == "pgbouncer-"@ + decimal(before.len() + 1) && after.len() == before.len()
            + 1 && after.take(before.len() as int) == before,
        outcome matches ScaleOutcome::ReapedDown(name) ==> action == ScaleAction::Down
            && before.len() > 0 && name == before[before.len() - 1].name && after == before,
        outcome == ScaleOutcome::NoOp ==> after == before,
        action == ScaleAction::Hold ==> after == before,
        action == ScaleAction::Down && before.len() > 0 ==> outcome is ReapedDown,
        before.len() >= 7 ==> !(outcome is SpawnedUp),
{
    if let ScaleOutcome::SpawnedUp(name) = outcome {
        law_extra_names_are_numbered(before.len() as int);
        assert(after.take(before.len() as int) =~= after.drop_last());
    }
}

/// A listener that was handed down is told by the family of its socket, and one of any other family
/// is refused.
pub proof fn law_listener_is_told_by_its_family(family: i32)
    ensures
        kind_of_family(family) == Some(ListenerKind::Unix) <==> family == 1,
        kind_of_family(family) == Some(ListenerKind::Vsock) <==> family == 40,
{
}

/// Whether the standby of a name is a synchronous one is asked of the server by that name, and the
/// statement fails as long as it is not.
pub proof fn law_sync_standby_is_asked_for(name: Seq<char>)
    ensures
        contains(sync_check(name), "application_name = '"@ + name + "'"@),
        contains(sync_check(name), "RAISE EXCEPTION '"@ + name),
        contains(sync_check(name), "sync_state IN ('sync','quorum')"@),
{
    let a = "DO $$ BEGIN IF NOT EXISTS (SELECT 1 FROM pg_stat_replication WHERE application_name = '"@;
    let b = "' AND sync_state IN ('sync','quorum')) THEN RAISE EXCEPTION '"@;
    let c = " not yet a sync standby'; END IF; END $$"@;
    let s = sync_check(name);
    reveal_strlit(
        "DO $$ BEGIN IF NOT EXISTS (SELECT 1 FROM pg_stat_replication WHERE application_name = '",
    );
    reveal_strlit("' AND sync_state IN ('sync','quorum')) THEN RAISE EXCEPTION '");
    reveal_strlit("application_name = '");
    reveal_strlit("'");
    reveal_strlit("RAISE EXCEPTION '");
    reveal_strlit("sync_state IN ('sync','quorum')");
    let x = "application_name = '"@ + name + "'"@;
    let i = a.len() - "application_name = '"@.len();
    assert(s.subrange(i, i + x.len()) =~= x);
    let y = "RAISE EXCEPTION '"@ + name;
    let j = a.len() + name.len() + b.len() - "RAISE EXCEPTION '"@.len();
    assert(s.subrange(j, j + y.len()) =~= y);
    let z = "sync_state IN ('sync','quorum')"@;
    let k = a.len() as int + name.len() + 6;
    assert(s.subrange(k, k + z.len()) =~= z);
}

/// A start from nothing brings back as many workers as ran before, within what the machine has room
/// for, and otherwise follows the settings alone.
pub proof fn law_start_brings_workers_back(cfg: MmdsConfig, prior: usize)
    ensures
        ({
            let room: int = if cfg.vcpus < 8 {
                0
            } else if cfg.vcpus >= 32 {
                7
            } else {
                cfg.vcpus as int / 4 - 1
            };
            let n = if prior < room {
                prior as int
            } else {
                room
            };
            &&& start_plan(cfg, prior) == cold_steps(cfg, n as usize)
            &&& start_plan(cfg, prior).contains(ColdStep::SpawnExtras(n as usize))
        }),
{
    law_warm_start_fits_the_machine(prior as int, cfg.vcpus);
    law_start_follows_the_settings(cfg, warm_extras(prior as int, cfg.vcpus) as usize);
}

/// Every extension that comes with the image is made where it can be, whatever is set.
pub proof fn law_extensions_are_offered(cfg: MmdsConfig, installed: Seq<String>, i: int)
    requires
        0 <= i < 11,
    ensures
        ({
            let names = seq![
                "pg_stat_statements"@,
                "auto_explain"@,
                "pg_trgm"@,
                "pgvector"@,
                "pgvectorscale"@,
                "pg_partman"@,
                "pg_jsonschema"@,
                "hypopg"@,
                "pg_repack"@,
                "postgis"@,
                "pg_search"@,
            ];
            post_start_actions(cfg, installed).contains(
                PostAction::Optional("CREATE EXTENSION IF NOT EXISTS "@ + names[i]),
            )
        }),
{
    let s = post_start_actions(cfg, installed);
    let required = required_actions(required_extensions(), installed);
    let optional = optional_actions(optional_extensions());
    assert(optional[i] == PostAction::Optional(create_extension(optional_extensions()[i])));
    assert(s[6 + required.len() + i] == optional[i]);
}

/// A child that was not started yet has no process and no delay to its account, and its first failure
/// costs the shortest one but one.
pub proof fn law_new_child_has_no_delay(name: &'static str, pid: Option<u32>, then_ns: u64, now_ns: u64)
    requires
        now_ns < then_ns + 60_000_000_000,
    ensures
        new_child(name).pid is None && new_child(name).name == name,
        backoff(new_child(name).restart_count) == 100,
        backoff(exited(started(new_child(name), pid, then_ns), now_ns).restart_count) == 200,
{
    law_delay_doubles(0);
}

} // verus!
