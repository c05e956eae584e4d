//! Setup at every boot: what is done, in which order, and what the files hold.
//!
//! Nothing here touches the machine. Each function says what is to be done, as a list of steps or
//! file operations, or judges what was found. The same findings give the same list, so that
//! running it again changes nothing.
use crate::bytes::{law_text_reads_back, read_text, utf8_text};
use crate::config::{
    beyond_conf, beyond_conf_path, durability_conf_path, lines_out, max_workers, memory_conf_path,
    peer_socket_dir, pgb_peer_socket_dir, pgbouncer_ini_path, pgbouncer_max_workers,
    pgbouncer_worker_ini, pitr_conf, pitr_text, replica_conf, replica_conf_path, replica_text,
    shared_buffers, shared_buffers_mb, sink_recovery_conf, sink_recovery_text, tls_conf,
    tls_conf_path, tls_conf_text, tuning_adaptive_text, tuning_boot_text, tuning_conf_adaptive,
    tuning_conf_boot, tuning_conf_path, wal_sink_conf, wal_sink_conf_path, worker_ini_path,
    worker_ini_text, BEYOND_CONF, DURABILITY_CONF_EPHEMERAL, PG_HBA_CONF, PG_HBA_PATH,
    WAL_SINK_CONF,
};
use crate::http::{http_target, law_url_is_taken_apart};
use crate::mmds::{mmds_error_text, optional, MmdsConfig, MmdsError, PgTier};
use crate::number::{decimal, digit_value, is_all_hex, push_signed, signed_decimal};
use crate::pg::{PGDATA, PG_WALDIR};
use crate::settings::{lemma_lines_concat, lemma_lines_first};
use crate::text::{
    after_prefix, chars_of, comes_before, copy_str, find_last, is_listed, is_text, is_white,
    join_path,
    last_of, lemma_last_of, lemma_precedes_irreflexive, lemma_precedes_total,
    lemma_precedes_transitive, lines, lines_of, listed, path_join, pieces, precedes,
    same_chars, split, starts_with, strings, strip_cr, strip_prefix, text_of, texts, trim,
    trim_start, trimmed,
};
use crate::tls::{tls_error_text, TlsConfig, TlsError, TlsFiles};
use crate::values::{
    entries, law_fallback_tries_huge_pages, law_sink_file_makes_commits_wait, law_throwaway_file_lets_commits_go,
    lemma_trim_visible,
};
use crate::wal_proto::replication::is_segment_name;
use vstd::prelude::*;
use vstd::slice::slice_subrange;
use vstd::utf8::encode_utf8;

verus! {

/// Where the cluster looks for its write-ahead log.
pub const PG_WAL_LINK: &'static str = "/var/lib/postgresql/18/main/pg_wal";

/// Where scripts are that run before the server starts.
pub const HOOKS_PRE_START: &'static str = "/etc/postgresql/18/hooks/pre-start.d";

// ---------------------------------------------------------------------------
// Errors.
// ---------------------------------------------------------------------------
/// What can go wrong at boot.
#[derive(Debug)]
pub enum BootError {
    Mmds(MmdsError),
    WalIsDirectory,
    WalWrongTarget { expected: String, actual: String },
    InitDb(String),
    BaseBackup(String),
    Io(String),
    Tls(TlsError),
    HookFailed { path: String, code: i32 },
}

/// The words of an error.
pub open spec fn boot_error_text(e: BootError) -> Seq<char> {
    match e {
        BootError::Mmds(m) => "MMDS error: "@ + mmds_error_text(m),
        BootError::WalIsDirectory =>
            "pg_wal exists as a plain directory — operator must convert to symlink"@,
        BootError::WalWrongTarget { expected, actual } =>
            "pg_wal symlink points to wrong target: expected "@ + expected@ + ", got "@ + actual@,
        BootError::InitDb(m) => "initdb failed: "@ + m@,
        BootError::BaseBackup(m) => "pg_basebackup failed: "@ + m@,
        BootError::Io(m) => "I/O error: "@ + m@,
        BootError::Tls(t) => "TLS cert error: "@ + tls_error_text(t),
        BootError::HookFailed { path, code } => "hook script "@ + path@
            + " failed with exit code "@ + signed_decimal(code as int),
    }
}

impl BootError {
    /// The words of this error.
    pub fn to_string(&self) -> (r: String)
        ensures
            r@ == boot_error_text(*self),
    {
        let mut out = String::new();
        match self {
            BootError::Mmds(m) => {
                out.append("MMDS error: ");
                out.append(m.to_string().as_str());
            },
            BootError::WalIsDirectory => {
                out.append("pg_wal exists as a plain directory — operator must convert to symlink");
            },
            BootError::WalWrongTarget { expected, actual } => {
                out.append("pg_wal symlink points to wrong target: expected ");
                out.append(expected.as_str());
                out.append(", got ");
                out.append(actual.as_str());
            },
            BootError::InitDb(m) => {
                out.append("initdb failed: ");
                out.append(m.as_str());
            },
            BootError::BaseBackup(m) => {
                out.append("pg_basebackup failed: ");
                out.append(m.as_str());
            },
            BootError::Io(m) => {
                out.append("I/O error: ");
                out.append(m.as_str());
            },
            BootError::Tls(t) => {
                out.append("TLS cert error: ");
                out.append(t.to_string().as_str());
            },
            BootError::HookFailed { path, code } => {
                out.append("hook script ");
                out.append(path.as_str());
                out.append(" failed with exit code ");
                push_signed(&mut out, *code);
            },
        }
        out
    }
}

// ---------------------------------------------------------------------------
// The order of the steps.
// ---------------------------------------------------------------------------
/// A step of the boot.
#[derive(Clone, Copy, Debug, PartialEq, Eq, Structural)]
pub enum BootStep {
    EnsureSocketDir,
    MaybeInitdb,
    BaseBackup,
    TouchStandbySignal,
    EnsureConfD,
    VerifyWalSymlink,
    FetchWalGap,
    ProvisionTls,
    WriteConfigFiles,
    WritePitrConfig,
    WriteReplicaConf,
    ChownDataTree,
    /// Kernel settings for shared buffers of so many megabytes.
    ApplyKernelSettings(u64),
    RunPreStartHooks,
}

/// The steps of the boot of a cluster of its own.
pub open spec fn primary_steps(buffers_mb: u64) -> Seq<BootStep> {
    seq![
        BootStep::EnsureSocketDir,
        BootStep::MaybeInitdb,
        BootStep::EnsureConfD,
        BootStep::VerifyWalSymlink,
        BootStep::FetchWalGap,
        BootStep::ProvisionTls,
        BootStep::WriteConfigFiles,
        BootStep::WritePitrConfig,
        BootStep::ApplyKernelSettings(buffers_mb),
        BootStep::RunPreStartHooks,
    ]
}

/// The steps of the boot of a replica.
pub open spec fn replica_steps(buffers_mb: u64) -> Seq<BootStep> {
    seq![
        BootStep::EnsureSocketDir,
        BootStep::BaseBackup,
        BootStep::TouchStandbySignal,
        BootStep::EnsureConfD,
        BootStep::VerifyWalSymlink,
        BootStep::ProvisionTls,
        BootStep::WriteConfigFiles,
        BootStep::WriteReplicaConf,
        BootStep::ChownDataTree,
        BootStep::ApplyKernelSettings(buffers_mb),
        BootStep::RunPreStartHooks,
    ]
}

/// The steps of the boot; the first one that fails ends it.
pub open spec fn steps_for(tier: PgTier, ram_bytes: u64) -> Seq<BootStep> {
    let buffers = shared_buffers(ram_bytes) as u64;
    if tier == PgTier::Replica {
        replica_steps(buffers)
    } else {
        primary_steps(buffers)
    }
}

/// Lists the steps of the boot.
pub fn boot_steps(cfg: &MmdsConfig) -> (r: Vec<BootStep>)
    ensures
        r@ == steps_for(cfg.pg_tier, cfg.ram_bytes),
{
    let buffers: u64 = shared_buffers_mb(cfg.ram_bytes);
    let mut out: Vec<BootStep> = Vec::new();
    out.push(BootStep::EnsureSocketDir);
    if cfg.pg_tier == PgTier::Replica {
        out.push(BootStep::BaseBackup);
        out.push(BootStep::TouchStandbySignal);
        out.push(BootStep::EnsureConfD);
        out.push(BootStep::VerifyWalSymlink);
        out.push(BootStep::ProvisionTls);
        out.push(BootStep::WriteConfigFiles);
        out.push(BootStep::WriteReplicaConf);
        out.push(BootStep::ChownDataTree);
    } else {
        out.push(BootStep::MaybeInitdb);
        out.push(BootStep::EnsureConfD);
        out.push(BootStep::VerifyWalSymlink);
        out.push(BootStep::FetchWalGap);
        out.push(BootStep::ProvisionTls);
        out.push(BootStep::WriteConfigFiles);
        out.push(BootStep::WritePitrConfig);
    }
    out.push(BootStep::ApplyKernelSettings(buffers));
    out.push(BootStep::RunPreStartHooks);
    assert(out@ == steps_for(cfg.pg_tier, cfg.ram_bytes));
    out
}

/// On every tier the directory for generated files is there before files are written into it, and
/// on a replica it is made only after the base backup, which wants an empty data directory. The
/// log is checked before segments are fetched into it, and scripts run last.
pub proof fn law_order_of_boot(tier: PgTier, ram_bytes: u64)
    ensures
        ({
            let s = steps_for(tier, ram_bytes);
            &&& forall|i: int, j: int|
                0 <= i < s.len() && 0 <= j < s.len() && s[i] == BootStep::EnsureConfD && s[j]
                    == BootStep::WriteConfigFiles ==> i < j
            &&& forall|i: int, j: int|
                0 <= i < s.len() && 0 <= j < s.len() && s[i] == BootStep::BaseBackup && s[j]
                    == BootStep::EnsureConfD ==> i < j
            &&& forall|i: int, j: int|
                0 <= i < s.len() && 0 <= j < s.len() && s[i] == BootStep::VerifyWalSymlink && s[j]
                    == BootStep::FetchWalGap ==> i < j
            &&& forall|i: int, j: int|
                0 <= i < s.len() && 0 <= j < s.len() && s[i] == BootStep::ProvisionTls && s[j]
                    == BootStep::WriteConfigFiles ==> i < j
            &&& s.last() == BootStep::RunPreStartHooks
        }),
{
}

// ---------------------------------------------------------------------------
// A new data directory.
// ---------------------------------------------------------------------------
/// A step towards an initialized data directory.
#[derive(Clone, Copy, Debug, PartialEq, Eq, Structural)]
pub enum InitStep {
    RemovePgdata,
    CreatePgdata,
    ChownDataTree,
    MaterializeTemplate,
    RunInitdb,
}

/// What stands at the data directory.
#[derive(Clone, Copy, Debug, PartialEq, Eq, Structural)]
pub enum PgdataState {
    /// It holds an initialized cluster.
    Initialized,
    /// It holds something else: an initialization that was cut short.
    Partial,
    /// It is there and empty.
    Empty,
    /// It is not there.
    Missing,
}

/// The steps towards an initialized data directory.
pub open spec fn init_steps(state: PgdataState, template: bool) -> Seq<InitStep> {
    let fill = if template {
        InitStep::MaterializeTemplate
    } else {
        InitStep::RunInitdb
    };
    match state {
        PgdataState::Initialized => seq![],
        PgdataState::Partial => seq![
            InitStep::RemovePgdata,
            InitStep::CreatePgdata,
            InitStep::ChownDataTree,
            fill,
        ],
        PgdataState::Empty => seq![InitStep::ChownDataTree, fill],
        PgdataState::Missing => seq![InitStep::CreatePgdata, InitStep::ChownDataTree, fill],
    }
}

/// Lists the steps towards an initialized data directory. An initialized one is left alone; one
/// that was cut short is made anew. Where a template is at hand it is copied.
pub fn maybe_initdb(state: PgdataState, template: bool) -> (r: Vec<InitStep>)
    ensures
        r@ == init_steps(state, template),
{
    let mut out: Vec<InitStep> = Vec::new();
    if state == PgdataState::Initialized {
        return out;
    }
    if state == PgdataState::Partial {
        out.push(InitStep::RemovePgdata);
    }
    if state == PgdataState::Partial || state == PgdataState::Missing {
        out.push(InitStep::CreatePgdata);
    }
    out.push(InitStep::ChownDataTree);
    if template {
        out.push(InitStep::MaterializeTemplate);
    } else {
        out.push(InitStep::RunInitdb);
    }
    assert(out@ == init_steps(state, template));
    out
}

/// The file that tells a complete template.
pub fn template_marker(template_dir: &str) -> (r: String)
    ensures
        r@ == template_dir@ + "/main/PG_VERSION"@,
{
    let mut out: String = copy_str(template_dir);
    out.append("/main/PG_VERSION");
    out
}

/// An operation on the file system.
#[derive(Debug)]
pub enum FsOp {
    /// Remove what is there, with all below it, if anything is.
    Remove(String),
    /// Copy a tree with its links, modes and owners.
    CopyTree { from: String, to: String },
    /// Replace what is at `link` by a symbolic link to `target`.
    Relink { link: String, target: String },
    /// Bring a tree to stable storage.
    SyncTree(String),
    Rename { from: String, to: String },
    /// Bring a directory's entries to stable storage.
    SyncDir(String),
}

/// An operation on the file system, without its representation.
pub enum FsStep {
    Remove(Seq<char>),
    CopyTree(Seq<char>, Seq<char>),
    Relink(Seq<char>, Seq<char>),
    SyncTree(Seq<char>),
    Rename(Seq<char>, Seq<char>),
    SyncDir(Seq<char>),
}

impl View for FsOp {
    type V = FsStep;

    open spec fn view(&self) -> FsStep {
        match self {
            FsOp::Remove(p) => FsStep::Remove(p@),
            FsOp::CopyTree { from, to } => FsStep::CopyTree(from@, to@),
            FsOp::Relink { link, target } => FsStep::Relink(link@, target@),
            FsOp::SyncTree(p) => FsStep::SyncTree(p@),
            FsOp::Rename { from, to } => FsStep::Rename(from@, to@),
            FsOp::SyncDir(p) => FsStep::SyncDir(p@),
        }
    }
}

/// Operations without their representation.
pub open spec fn fs_steps(ops: Seq<FsOp>) -> Seq<FsStep> {
    ops.map_values(|o: FsOp| o@)
}

/// How much of the front of a path counts by itself: the slash of an absolute path, or the dot that
/// a path begins with.
pub open spec fn path_lead(p: Seq<char>) -> int {
    if p.len() > 0 && (p[0] == '/' || p[0] == '.' && (p.len() == 1 || p[1] == '/')) {
        1
    } else {
        0
    }
}

/// Where the last component of a path begins.
pub open spec fn last_component(p: Seq<char>) -> int {
    path_lead(p) + last_of(p.skip(path_lead(p)), '/') + 1
}

/// What stands before the last component and the slash in front of it.
pub open spec fn before_last(p: Seq<char>) -> Seq<char> {
    if last_component(p) > path_lead(p) {
        p.take(last_component(p) - 1)
    } else {
        p.take(path_lead(p))
    }
}

/// A path without the slashes and the dots at its end that name nothing.
pub open spec fn tidy_path(p: Seq<char>) -> Seq<char>
    decreases p.len(),
{
    proof {
        lemma_before_last(p);
    }
    if p.len() > path_lead(p) && (p.skip(last_component(p)) == Seq::<char>::empty() || p.skip(
        last_component(p),
    ) == seq!['.']) {
        tidy_path(before_last(p))
    } else {
        p
    }
}

/// The directory that a path lies in, if it names anything but the root. Slashes and dots that name
/// nothing are passed over.
pub open spec fn parent_dir(path: Seq<char>) -> Option<Seq<char>> {
    let t = tidy_path(path);
    if t.len() > path_lead(t) {
        Some(tidy_path(before_last(t)))
    } else if t.len() > 0 && t[0] != '/' {
        Some(seq![])
    } else {
        None
    }
}

/// The last component lies in the path, and what stands before it is shorter.
pub proof fn lemma_before_last(p: Seq<char>)
    ensures
        path_lead(p) <= last_component(p) <= p.len(),
        p.len() > path_lead(p) ==> before_last(p).len() < p.len(),
{
    lemma_last_of(p.skip(path_lead(p)), '/');
}

fn lead_of(p: &[char]) -> (r: usize)
    ensures
        r == path_lead(p@),
        r <= p@.len(),
{
    if p.len() > 0 && (p[0] == '/' || p[0] == '.' && (p.len() == 1 || p[1] == '/')) {
        1
    } else {
        0
    }
}

/// Where the last component begins, and what stands before it and its slash.
fn cut_component<'a>(p: &'a [char]) -> (r: (usize, &'a [char]))
    ensures
        r.0 == last_component(p@),
        r.0 <= p@.len(),
        r.1@ == before_last(p@),
        p@.len() > path_lead(p@) ==> r.1@.len() < p@.len(),
{
    let lead: usize = lead_of(p);
    proof {
        lemma_before_last(p@);
    }
    let body: &[char] = slice_subrange(p, lead, p.len());
    assert(body@ == p@.skip(lead as int));
    match find_last(body, '/') {
        Some(i) => (lead + i + 1, slice_subrange(p, 0, lead + i)),
        None => (lead, slice_subrange(p, 0, lead)),
    }
}

/// The path without the slashes and the dots at its end that name nothing.
fn tidied<'a>(p: &'a [char]) -> (r: &'a [char])
    ensures
        r@ == tidy_path(p@),
{
    let mut t: &'a [char] = p;
    while t.len() > lead_of(t)
        invariant
            tidy_path(t@) == tidy_path(p@),
        decreases t@.len(),
    {
        proof {
            lemma_before_last(t@);
        }
        let (at, before) = cut_component(t);
        assert(t@.skip(at as int).len() == t@.len() - at);
        if at == t.len() {
            assert(t@.skip(at as int) == Seq::<char>::empty());
            t = before;
        } else if at + 1 == t.len() && t[at] == '.' {
            assert(t@.skip(at as int) == seq!['.']);
            t = before;
        } else {
            assert(t@.skip(at as int)[0] == t@[at as int]);
            return t;
        }
    }
    t
}

/// The directory that a path lies in.
pub fn parent_of(path: &str) -> (r: Option<String>)
    ensures
        match r {
            Some(p) => parent_dir(path@) == Some(p@),
            None => parent_dir(path@) is None,
        },
{
    let cs: Vec<char> = chars_of(path);
    let t: &[char] = tidied(cs.as_slice());
    if t.len() > lead_of(t) {
        let (_, before) = cut_component(t);
        Some(text_of(tidied(before)))
    } else if t.len() > 0 && t[0] != '/' {
        let out = String::new();
        assert(out@ == Seq::<char>::empty());
        Some(out)
    } else {
        None
    }
}

/// The operations that put a copy of the template in place.
pub open spec fn materialize_steps(
    template: Seq<char>,
    pgdata: Seq<char>,
    wal_target: Seq<char>,
) -> Seq<FsStep> {
    let main_staging = pgdata + ".staging"@;
    let wal_staging = wal_target + ".staging"@;
    let publish = seq![
        FsStep::Remove(main_staging),
        FsStep::Remove(wal_staging),
        FsStep::Remove(pgdata),
        FsStep::Remove(wal_target),
        FsStep::CopyTree(template + "/wal"@, wal_staging),
        FsStep::CopyTree(template + "/main"@, main_staging),
        FsStep::Relink(main_staging + "/pg_wal"@, wal_target),
        FsStep::SyncTree(wal_staging),
        FsStep::SyncTree(main_staging),
        FsStep::Rename(wal_staging, wal_target),
        FsStep::Rename(main_staging, pgdata),
    ];
    match parent_dir(pgdata) {
        Some(p) => publish.push(FsStep::SyncDir(p)),
        None => publish,
    }
}

fn concat(a: &str, b: &str) -> (r: String)
    ensures
        r@ == a@ + b@,
{
    let mut out: String = copy_str(a);
    out.append(b);
    out
}

/// Lists the operations that put a copy of the template in place. The copy is made beside its
/// place and brought to stable storage; only then is it moved there, the log first.
pub fn materialize_template_into(template_dir: &str, pgdata: &str, wal_target: &str) -> (r: Vec<
    FsOp,
>)
    ensures
        fs_steps(r@) == materialize_steps(template_dir@, pgdata@, wal_target@),
{
    let mut out: Vec<FsOp> = Vec::new();
    out.push(FsOp::Remove(concat(pgdata, ".staging")));
    out.push(FsOp::Remove(concat(wal_target, ".staging")));
    out.push(FsOp::Remove(copy_str(pgdata)));
    out.push(FsOp::Remove(copy_str(wal_target)));
    out.push(
        FsOp::CopyTree { from: concat(template_dir, "/wal"), to: concat(wal_target, ".staging") },
    );
    out.push(
        FsOp::CopyTree { from: concat(template_dir, "/main"), to: concat(pgdata, ".staging") },
    );
    let staging: String = concat(pgdata, ".staging");
    out.push(
        FsOp::Relink { link: concat(staging.as_str(), "/pg_wal"), target: copy_str(wal_target) },
    );
    out.push(FsOp::SyncTree(concat(wal_target, ".staging")));
    out.push(FsOp::SyncTree(concat(pgdata, ".staging")));
    out.push(FsOp::Rename { from: concat(wal_target, ".staging"), to: copy_str(wal_target) });
    out.push(FsOp::Rename { from: concat(pgdata, ".staging"), to: copy_str(pgdata) });
    match parent_of(pgdata) {
        Some(p) => {
            out.push(FsOp::SyncDir(p));
        },
        None => {},
    }
    assert(fs_steps(out@) == materialize_steps(template_dir@, pgdata@, wal_target@));
    out
}

// ---------------------------------------------------------------------------
// A model of the file system, and what the operations do to it.
// ---------------------------------------------------------------------------
/// A tree at a path: where its contents were copied from, where its `pg_wal` points if that was
/// set, and whether it has been brought to stable storage since it last changed.
pub struct Tree {
    pub origin: Seq<char>,
    pub pg_wal: Option<Seq<char>>,
    pub stable: bool,
}

/// Whether the path `q` is `p` or lies inside of it.
pub open spec fn under(q: Seq<char>, p: Seq<char>) -> bool {
    q == p || starts_with(q, p + "/"@)
}

/// A file system without what is at a path and inside of it.
pub open spec fn without(fs: Map<Seq<char>, Tree>, p: Seq<char>) -> Map<Seq<char>, Tree> {
    Map::new(|q: Seq<char>| fs.contains_key(q) && !under(q, p), |q: Seq<char>| fs[q])
}

/// What an operation does to the trees of a file system. An operation on a tree that is not there
/// does nothing.
pub open spec fn apply_step(fs: Map<Seq<char>, Tree>, step: FsStep) -> Map<Seq<char>, Tree> {
    match step {
        FsStep::Remove(p) => without(fs, p),
        FsStep::CopyTree(from, to) => if fs.contains_key(from) {
            without(fs, to).insert(to, Tree { origin: from, pg_wal: None, stable: false })
        } else {
            fs
        },
        FsStep::Relink(link, target) => Map::new(
            |p: Seq<char>| fs.contains_key(p),
            |p: Seq<char>|
                if p + "/pg_wal"@ == link {
                    Tree { pg_wal: Some(target), stable: false, ..fs[p] }
                } else {
                    fs[p]
                },
        ),
        FsStep::SyncTree(p) => if fs.contains_key(p) {
            fs.insert(p, Tree { stable: true, ..fs[p] })
        } else {
            fs
        },
        FsStep::Rename(from, to) => if fs.contains_key(from) {
            Map::new(
                |q: Seq<char>|
                    if under(q, to) {
                        fs.contains_key(from + q.skip(to.len() as int))
                    } else {
                        fs.contains_key(q) && !under(q, from)
                    },
                |q: Seq<char>|
                    if under(q, to) {
                        fs[from + q.skip(to.len() as int)]
                    } else {
                        fs[q]
                    },
            )
        } else {
            fs
        },
        FsStep::SyncDir(_) => fs,
    }
}

/// What the first `k` operations do.
pub open spec fn apply_steps(fs: Map<Seq<char>, Tree>, steps: Seq<FsStep>, k: int) -> Map<
    Seq<char>,
    Tree,
>
    decreases k,
{
    if k <= 0 {
        fs
    } else {
        apply_step(apply_steps(fs, steps, k - 1), steps[k - 1])
    }
}

/// Nothing but the tree itself is at a path or inside of it.
pub open spec fn only_tree(fs: Map<Seq<char>, Tree>, p: Seq<char>) -> bool {
    fs.contains_key(p) && forall|q: Seq<char>| #[trigger]
        fs.contains_key(q) && under(q, p) ==> q == p
}

/// The cluster is complete: the data directory holds the template's, its log link points to the
/// log's place, the log is there, both are on stable storage, and nothing of what was there before
/// is left in them.
pub open spec fn complete(
    fs: Map<Seq<char>, Tree>,
    template: Seq<char>,
    pgdata: Seq<char>,
    wal_target: Seq<char>,
) -> bool {
    &&& only_tree(fs, pgdata)
    &&& fs[pgdata] == (Tree {
        origin: template + "/main"@,
        pg_wal: Some(wal_target),
        stable: true,
    })
    &&& only_tree(fs, wal_target)
    &&& fs[wal_target] == (Tree { origin: template + "/wal"@, pg_wal: None, stable: true })
}

/// The places that the copying reads and writes.
pub open spec fn places(template: Seq<char>, pgdata: Seq<char>, wal_target: Seq<char>) -> Seq<
    Seq<char>,
> {
    seq![
        template + "/main"@,
        template + "/wal"@,
        pgdata,
        wal_target,
        pgdata + ".staging"@,
        wal_target + ".staging"@,
    ]
}

/// No two of the paths are the same, and none lies inside another.
pub open spec fn apart(ps: Seq<Seq<char>>) -> bool {
    forall|i: int, j: int|
        0 <= i < ps.len() && 0 <= j < ps.len() && i != j ==> !under(
            #[trigger] ps[i],
            #[trigger] ps[j],
        )
}

proof fn lemma_suffix(a: Seq<char>, b: Seq<char>, c: Seq<char>)
    requires
        a + c == b + c,
    ensures
        a == b,
{
    assert((a + c).len() == a.len() + c.len() && (b + c).len() == b.len() + c.len());
    assert(a.len() == b.len());
    assert forall|i: int| 0 <= i < a.len() implies a[i] == b[i] by {
        assert((a + c)[i] == (b + c)[i]);
        assert((a + c)[i] == a[i] && (b + c)[i] == b[i]);
    }
    assert(a =~= b);
}

/// A tree that takes another place without anything inside of it is alone there.
proof fn lemma_rename(fs: Map<Seq<char>, Tree>, from: Seq<char>, to: Seq<char>)
    requires
        only_tree(fs, from),
        !under(from, to),
        !under(to, from),
    ensures
        ({
            let after = apply_step(fs, FsStep::Rename(from, to));
            &&& only_tree(after, to) && after[to] == fs[from]
            &&& forall|q: Seq<char>| #[trigger]
                after.contains_key(q) ==> q == to || (fs.contains_key(q) && after[q] == fs[q]
                    && !under(q, from) && !under(q, to))
            &&& forall|q: Seq<char>| #[trigger]
                fs.contains_key(q) && !under(q, from) && !under(q, to) ==> after.contains_key(q)
                    && after[q] == fs[q]
        }),
{
    let after = apply_step(fs, FsStep::Rename(from, to));
    assert(from + to.skip(to.len() as int) =~= from);
    assert forall|q: Seq<char>| #[trigger] after.contains_key(q) && under(q, to) implies q == to by {
        let r = from + q.skip(to.len() as int);
        assert(fs.contains_key(r));
        if q != to {
            let tail = q.skip(to.len() as int);
            assert(q.take((to + "/"@).len() as int) == to + "/"@);
            reveal_strlit("/");
            assert(tail.len() > 0 && tail[0] == '/') by {
                assert(q[to.len() as int] == (to + "/"@)[to.len() as int]);
            }
            assert(r.take((from + "/"@).len() as int) =~= from + "/"@);
            assert(under(r, from));
            assert(r.len() == from.len() + tail.len());
        }
    }
}

/// Wherever the copying is cut short, the data directory is not there or complete, once what was
/// there before has been removed; after all operations it is complete, and no staging is left.
/// This holds whatever was there before, so that the operations can be started over at any time,
/// as long as the template is there and none of the places lies inside another.
#[verifier::rlimit(60)]
pub proof fn law_data_directory_appears_complete(
    fs: Map<Seq<char>, Tree>,
    template: Seq<char>,
    pgdata: Seq<char>,
    wal_target: Seq<char>,
    k: int,
)
    requires
        fs.contains_key(template + "/main"@),
        fs.contains_key(template + "/wal"@),
        apart(places(template, pgdata, wal_target)),
        3 <= k <= materialize_steps(template, pgdata, wal_target).len(),
    ensures
        ({
            let steps = materialize_steps(template, pgdata, wal_target);
            let after = apply_steps(fs, steps, k);
            &&& after.contains_key(pgdata) ==> complete(after, template, pgdata, wal_target)
            &&& k >= 11 ==> {
                &&& complete(after, template, pgdata, wal_target)
                &&& !after.contains_key(pgdata + ".staging"@)
                &&& !after.contains_key(wal_target + ".staging"@)
            }
        }),
{
    let steps = materialize_steps(template, pgdata, wal_target);
    let ps = places(template, pgdata, wal_target);
    let tm = ps[0];
    let tw = ps[1];
    let ms = ps[4];
    let ws = ps[5];
    assert(ps[2] == pgdata && ps[3] == wal_target);
    reveal_strlit(".staging");
    reveal_strlit("/pg_wal");
    let f1 = apply_steps(fs, steps, 1);
    let f2 = apply_steps(fs, steps, 2);
    let f3 = apply_steps(fs, steps, 3);
    let f4 = apply_steps(fs, steps, 4);
    let f5 = apply_steps(fs, steps, 5);
    let f6 = apply_steps(fs, steps, 6);
    let f7 = apply_steps(fs, steps, 7);
    let f8 = apply_steps(fs, steps, 8);
    let f9 = apply_steps(fs, steps, 9);
    let f10 = apply_steps(fs, steps, 10);
    let f11 = apply_steps(fs, steps, 11);
    assert(apply_steps(fs, steps, 0) == fs);
    assert(f1 == apply_step(fs, steps[0]));
    assert(f2 == apply_step(f1, steps[1]));
    assert(f3 == apply_step(f2, steps[2]));
    assert(f4 == apply_step(f3, steps[3]));
    assert(f5 == apply_step(f4, steps[4]));
    assert(f6 == apply_step(f5, steps[5]));
    assert(f7 == apply_step(f6, steps[6]));
    assert(f8 == apply_step(f7, steps[7]));
    assert(f9 == apply_step(f8, steps[8]));
    assert(f10 == apply_step(f9, steps[9]));
    assert(f11 == apply_step(f10, steps[10]));
    assert(!f3.contains_key(pgdata));
    assert(f4.contains_key(tm) && f4.contains_key(tw));
    assert(forall|q: Seq<char>| #[trigger]
        f4.contains_key(q) ==> !under(q, pgdata) && !under(q, wal_target) && !under(q, ms)
            && !under(q, ws));
    assert(f5.contains_key(tm) && only_tree(f5, ws));
    assert(forall|q: Seq<char>| #[trigger]
        f5.contains_key(q) ==> !under(q, pgdata) && !under(q, wal_target) && !under(q, ms));
    assert(only_tree(f6, ms) && only_tree(f6, ws) && f6[ws] == f5[ws]);
    assert(forall|q: Seq<char>| #[trigger]
        f6.contains_key(q) ==> !under(q, pgdata) && !under(q, wal_target));
    assert(f7[ms].pg_wal == Some(wal_target));
    assert(f7[ws] == f6[ws]) by {
        if ws + "/pg_wal"@ == ms + "/pg_wal"@ {
            lemma_suffix(ws, ms, "/pg_wal"@);
        }
    }
    assert(f9[ms] == (Tree { origin: tm, pg_wal: Some(wal_target), stable: true }));
    assert(f9[ws] == (Tree { origin: tw, pg_wal: None, stable: true }));
    assert(forall|q: Seq<char>| #[trigger] f9.contains_key(q) <==> f6.contains_key(q));
    assert(only_tree(f9, ms) && only_tree(f9, ws));
    lemma_rename(f9, ws, wal_target);
    assert(f10.contains_key(ms) && f10[ms] == f9[ms]);
    assert(only_tree(f10, ms));
    lemma_rename(f10, ms, pgdata);
    assert(f11.contains_key(wal_target) && f11[wal_target] == f10[wal_target]);
    assert(complete(f11, template, pgdata, wal_target));
    assert(!f11.contains_key(ms) && !f11.contains_key(ws));
    if k == 12 {
        assert(apply_steps(fs, steps, 12) == apply_step(f11, steps[11]));
    }
}

// ---------------------------------------------------------------------------
// The link to the write-ahead log.
// ---------------------------------------------------------------------------
/// What stands where the cluster looks for its log.
#[derive(Debug)]
pub enum WalLink {
    Missing,
    Directory,
    /// A symbolic link, with its target.
    Symlink(String),
    /// Anything else.
    Other,
}

/// The parts of a path that count: neither empty nor `.`.
pub open spec fn path_parts(ps: Seq<Seq<char>>) -> Seq<Seq<char>>
    decreases ps.len(),
{
    if ps.len() == 0 {
        seq![]
    } else {
        let before = path_parts(ps.drop_last());
        if ps.last().len() == 0 || ps.last() == "."@ {
            before
        } else {
            before.push(ps.last())
        }
    }
}

/// Whether two paths, of which the second starts at the root, are the same path: repeated and
/// trailing slashes do not count.
pub open spec fn same_path(path: Seq<char>, rooted: Seq<char>) -> bool {
    &&& starts_with(path, "/"@)
    &&& path_parts(split(path, '/')) == path_parts(split(rooted, '/'))
}

fn parts_of<'a>(s: &'a [char]) -> (r: Vec<&'a [char]>)
    ensures
        texts(r@) == path_parts(split(s@, '/')),
{
    let ps: Vec<&'a [char]> = pieces(s, '/');
    let mut out: Vec<&'a [char]> = Vec::new();
    for i in 0..ps.len()
        invariant
            texts(ps@) == split(s@, '/'),
            texts(out@) == path_parts(texts(ps@).take(i as int)),
    {
        let ghost before = texts(out@);
        let p: &'a [char] = ps[i];
        assert(texts(ps@).take(i + 1).drop_last() == texts(ps@).take(i as int));
        assert(texts(ps@).take(i + 1).last() == p@);
        if p.len() > 0 && !is_text(p, ".") {
            out.push(p);
            assert(texts(out@) == before.push(p@));
        }
    }
    assert(texts(ps@).take(ps@.len() as int) == texts(ps@));
    out
}

fn is_same_path(path: &str, rooted: &str) -> (r: bool)
    ensures
        r == same_path(path@, rooted@),
{
    let a: Vec<char> = chars_of(path);
    let b: Vec<char> = chars_of(rooted);
    if after_prefix(a.as_slice(), "/").is_none() {
        return false;
    }
    let x: Vec<&[char]> = parts_of(a.as_slice());
    let y: Vec<&[char]> = parts_of(b.as_slice());
    if x.len() != y.len() {
        assert(texts(x@).len() != texts(y@).len());
        return false;
    }
    for i in 0..x.len()
        invariant
            x.len() == y.len(),
            forall|j: int| 0 <= j < i ==> texts(x@)[j] == texts(y@)[j],
            texts(x@) == path_parts(split(path@, '/')),
            texts(y@) == path_parts(split(rooted@, '/')),
    {
        assert(texts(x@)[i as int] == x@[i as int]@ && texts(y@)[i as int] == y@[i as int]@);
        if !same_chars(x[i], y[i]) {
            return false;
        }
    }
    assert(texts(x@) =~= texts(y@));
    true
}

/// What is wrong with the link to the log, if anything is.
pub open spec fn wal_link_fault(found: WalLink) -> Option<BootErrorKind> {
    match found {
        WalLink::Missing => Some(BootErrorKind::Io(
            "pg_wal symlink missing at "@ + PG_WAL_LINK@ + " after initdb"@,
        )),
        WalLink::Directory => Some(BootErrorKind::WalIsDirectory),
        WalLink::Symlink(target) => if same_path(target@, PG_WALDIR@) {
            None
        } else {
            Some(BootErrorKind::WalWrongTarget(PG_WALDIR@, target@))
        },
        WalLink::Other => None,
    }
}

/// The errors that this module itself finds, without their representation.
pub enum BootErrorKind {
    Io(Seq<char>),
    WalIsDirectory,
    WalWrongTarget(Seq<char>, Seq<char>),
    HookFailed(Seq<char>, i32),
    InitDb(Seq<char>),
    BaseBackup(Seq<char>),
    /// The configuration that was handed over, with the error's words.
    Mmds(Seq<char>),
    /// The certificate, with the error's words.
    Tls(Seq<char>),
}

impl View for BootError {
    type V = BootErrorKind;

    open spec fn view(&self) -> BootErrorKind {
        match self {
            BootError::Io(m) => BootErrorKind::Io(m@),
            BootError::WalIsDirectory => BootErrorKind::WalIsDirectory,
            BootError::WalWrongTarget { expected, actual } => BootErrorKind::WalWrongTarget(
                expected@,
                actual@,
            ),
            BootError::HookFailed { path, code } => BootErrorKind::HookFailed(path@, *code),
            BootError::InitDb(m) => BootErrorKind::InitDb(m@),
            BootError::BaseBackup(m) => BootErrorKind::BaseBackup(m@),
            BootError::Mmds(e) => BootErrorKind::Mmds(mmds_error_text(*e)),
            BootError::Tls(e) => BootErrorKind::Tls(tls_error_text(*e)),
        }
    }
}

/// Checks the link to the log. A plain directory is left for the operator to convert: it may hold
/// the only copy of the log.
pub fn verify_wal_symlink(found: &WalLink) -> (r: Result<(), BootError>)
    ensures
        match r {
            Ok(()) => wal_link_fault(*found) is None,
            Err(e) => wal_link_fault(*found) == Some(e@),
        },
{
    match found {
        WalLink::Missing => {
            let mut m: String = copy_str("pg_wal symlink missing at ");
            m.append(PG_WAL_LINK);
            m.append(" after initdb");
            Err(BootError::Io(m))
        },
        WalLink::Directory => Err(BootError::WalIsDirectory),
        WalLink::Symlink(target) => {
            if is_same_path(target.as_str(), PG_WALDIR) {
                Ok(())
            } else {
                Err(
                    BootError::WalWrongTarget {
                        expected: copy_str(PG_WALDIR),
                        actual: copy_str(target.as_str()),
                    },
                )
            }
        },
        WalLink::Other => Ok(()),
    }
}


/// A link to the log's place passes the check, so that a cluster whose data directory appeared
/// complete is not refused.
pub proof fn law_published_link_is_accepted(target: String)
    requires
        target@ == PG_WALDIR@,
    ensures
        wal_link_fault(WalLink::Symlink(target)) is None,
{
    reveal_strlit("/");
    reveal_strlit("/var/lib/postgresql/18/wal");
    assert(PG_WALDIR@.take(1) =~= "/"@);
}

// ---------------------------------------------------------------------------
// Files.
// ---------------------------------------------------------------------------
/// An operation on one file or directory.
#[derive(Debug)]
pub enum FileOp {
    /// Replace the file in one step.
    Write { path: String, text: String },
    /// Make the file if it is not there, and leave it alone if it is.
    Touch(String),
    /// Remove the file if it is there.
    Remove(String),
    /// Make the directory if it is not there.
    EnsureDir(String),
    /// Make the directory if it is not there, and give it to the user that the server runs as.
    EnsureOwnedDir(String),
}

/// An operation on one file or directory, without its representation.
pub enum FileStep {
    Write(Seq<char>, Seq<char>),
    Touch(Seq<char>),
    Remove(Seq<char>),
    EnsureDir(Seq<char>),
    EnsureOwnedDir(Seq<char>),
}

impl View for FileOp {
    type V = FileStep;

    open spec fn view(&self) -> FileStep {
        match self {
            FileOp::Write { path, text } => FileStep::Write(path@, text@),
            FileOp::Touch(p) => FileStep::Touch(p@),
            FileOp::Remove(p) => FileStep::Remove(p@),
            FileOp::EnsureDir(p) => FileStep::EnsureDir(p@),
            FileOp::EnsureOwnedDir(p) => FileStep::EnsureOwnedDir(p@),
        }
    }
}

/// Operations without their representation.
pub open spec fn file_steps(ops: Seq<FileOp>) -> Seq<FileStep> {
    ops.map_values(|o: FileOp| o@)
}

fn push_op(out: &mut Vec<FileOp>, op: FileOp)
    ensures
        file_steps(final(out)@) == file_steps(old(out)@).push(op@),
{
    out.push(op);
    assert(file_steps(out@) == file_steps(old(out)@).push(op@));
}

fn push_write(out: &mut Vec<FileOp>, path: String, text: String)
    ensures
        file_steps(final(out)@) == file_steps(old(out)@).push(FileStep::Write(path@, text@)),
{
    push_op(out, FileOp::Write { path, text });
}

/// What an operation does to the files, given by their texts.
pub open spec fn apply_file_step(files: Map<Seq<char>, Seq<char>>, step: FileStep) -> Map<
    Seq<char>,
    Seq<char>,
> {
    match step {
        FileStep::Write(p, t) => files.insert(p, t),
        FileStep::Touch(p) => if files.contains_key(p) {
            files
        } else {
            files.insert(p, seq![])
        },
        FileStep::Remove(p) => files.remove(p),
        FileStep::EnsureDir(_) => files,
        FileStep::EnsureOwnedDir(_) => files,
    }
}

/// What operations do to the files, one after the other.
pub open spec fn apply_file_steps(
    files: Map<Seq<char>, Seq<char>>,
    steps: Seq<FileStep>,
) -> Map<Seq<char>, Seq<char>>
    decreases steps.len(),
{
    if steps.len() == 0 {
        files
    } else {
        apply_file_step(apply_file_steps(files, steps.drop_last()), steps.last())
    }
}

/// What operations do to one file.
enum Effect {
    Keep,
    Touch,
    Become(Option<Seq<char>>),
}

spec fn effect(steps: Seq<FileStep>, p: Seq<char>) -> Effect
    decreases steps.len(),
{
    if steps.len() == 0 {
        Effect::Keep
    } else {
        let before = effect(steps.drop_last(), p);
        match steps.last() {
            FileStep::Write(q, t) => if p == q {
                Effect::Become(Some(t))
            } else {
                before
            },
            FileStep::Remove(q) => if p == q {
                Effect::Become(None)
            } else {
                before
            },
            FileStep::Touch(q) => if p == q {
                match before {
                    Effect::Keep => Effect::Touch,
                    Effect::Touch => Effect::Touch,
                    Effect::Become(None) => Effect::Become(Some(seq![])),
                    Effect::Become(Some(t)) => Effect::Become(Some(t)),
                }
            } else {
                before
            },
            _ => before,
        }
    }
}

spec fn content(files: Map<Seq<char>, Seq<char>>, p: Seq<char>) -> Option<Seq<char>> {
    if files.contains_key(p) {
        Some(files[p])
    } else {
        None
    }
}

spec fn act(e: Effect, c: Option<Seq<char>>) -> Option<Seq<char>> {
    match e {
        Effect::Keep => c,
        Effect::Touch => if c is None {
            Some(seq![])
        } else {
            c
        },
        Effect::Become(t) => t,
    }
}

proof fn lemma_effect(files: Map<Seq<char>, Seq<char>>, steps: Seq<FileStep>, p: Seq<char>)
    ensures
        content(apply_file_steps(files, steps), p) == act(effect(steps, p), content(files, p)),
    decreases steps.len(),
{
    if steps.len() > 0 {
        lemma_effect(files, steps.drop_last(), p);
    }
}

/// Doing a list of file operations a second time changes nothing.
pub proof fn law_files_twice_is_files_once(
    files: Map<Seq<char>, Seq<char>>,
    steps: Seq<FileStep>,
)
    ensures
        apply_file_steps(apply_file_steps(files, steps), steps) == apply_file_steps(files, steps),
{
    let once = apply_file_steps(files, steps);
    let twice = apply_file_steps(once, steps);
    assert forall|p: Seq<char>| content(twice, p) == content(once, p) by {
        lemma_effect(files, steps, p);
        lemma_effect(once, steps, p);
    }
    assert forall|p: Seq<char>| #[trigger] twice.dom().contains(p) == once.dom().contains(p) by {
        assert(content(twice, p) == content(once, p));
    }
    assert forall|p: Seq<char>| #[trigger] twice.dom().contains(p) implies twice[p] == once[p] by {
        assert(content(twice, p) == content(once, p));
    }
    assert(twice =~= once);
}

/// Whether segments are fetched from the sink over HTTP.
pub open spec fn is_http(sink: Seq<char>) -> bool {
    starts_with(sink, "http://"@) || starts_with(sink, "https://"@)
}

/// The settings for recovery to a point in time from a sink.
pub open spec fn recovery_text(sink: Seq<char>, time: Option<Seq<char>>) -> Seq<char> {
    if is_http(sink) {
        sink_recovery_text(sink, time)
    } else {
        pitr_text(sink, time)
    }
}

/// The files of recovery to a point in time.
pub open spec fn pitr_steps(cfg: MmdsConfig, pgdata: Seq<char>) -> Seq<FileStep> {
    let conf = path_join(pgdata, "conf.d/05-pitr.conf"@);
    let signal = path_join(pgdata, "recovery.signal"@);
    match cfg.recovery_target_time {
        Some(t) => seq![
            FileStep::Write(conf, recovery_text(optional(cfg.wal_sink)->0, Some(t@))),
            FileStep::Touch(signal),
        ],
        None => seq![FileStep::Remove(conf), FileStep::Remove(signal)],
    }
}

/// Lists the file operations for recovery to a point in time. With a target the server is told
/// where to fetch the log, when to stop, and to start recovering; without one nothing of that is
/// left from an earlier boot.
pub fn write_pitr_config_into(cfg: &MmdsConfig, pgdata: &str) -> (r: Vec<FileOp>)
    requires
        cfg.recovery_target_time is Some ==> cfg.wal_sink is Some,
    ensures
        file_steps(r@) == pitr_steps(*cfg, pgdata@),
{
    let conf: String = join_path(pgdata, "conf.d/05-pitr.conf");
    let signal: String = join_path(pgdata, "recovery.signal");
    let mut out: Vec<FileOp> = Vec::new();
    assert(file_steps(out@) == Seq::<FileStep>::empty());
    match (&cfg.recovery_target_time, &cfg.wal_sink) {
        (Some(t), Some(sink)) => {
            let cs: Vec<char> = chars_of(sink.as_str());
            let http: bool = after_prefix(cs.as_slice(), "http://").is_some() || after_prefix(
                cs.as_slice(),
                "https://",
            ).is_some();
            let text: String = if http {
                sink_recovery_conf(sink.as_str(), Some(t.as_str()))
            } else {
                pitr_conf(sink.as_str(), Some(t.as_str()))
            };
            push_write(&mut out, conf, text);
            push_op(&mut out, FileOp::Touch(signal));
        },
        _ => {
            push_op(&mut out, FileOp::Remove(conf));
            push_op(&mut out, FileOp::Remove(signal));
        },
    }
    assert(file_steps(out@) == pitr_steps(*cfg, pgdata@));
    out
}

/// Once the target is gone, so are the settings and the signal, whatever earlier boots left.
pub proof fn law_cleared_target_ends_recovery(
    files: Map<Seq<char>, Seq<char>>,
    cfg: MmdsConfig,
    pgdata: Seq<char>,
)
    requires
        cfg.recovery_target_time is None,
    ensures
        ({
            let after = apply_file_steps(files, pitr_steps(cfg, pgdata));
            &&& !after.contains_key(path_join(pgdata, "conf.d/05-pitr.conf"@))
            &&& !after.contains_key(path_join(pgdata, "recovery.signal"@))
        }),
{
    reveal_with_fuel(apply_file_steps, 3);
    let steps = pitr_steps(cfg, pgdata);
    assert(steps.drop_last().drop_last() =~= seq![]);
}


/// The files of the first `n` pooler workers.
pub open spec fn worker_steps(tls: TlsFiles, ram_bytes: u64, vcpus: u32, n: nat) -> Seq<FileStep>
    decreases n,
{
    if n == 0 {
        seq![]
    } else {
        let ini = worker_steps(tls, ram_bytes, vcpus, (n - 1) as nat).push(
            FileStep::Write(worker_ini_path(n), worker_ini_text(tls, ram_bytes, vcpus, n)),
        );
        if max_workers(vcpus) > 1 {
            ini.push(FileStep::EnsureOwnedDir(peer_socket_dir(n)))
        } else {
            ini
        }
    }
}

/// The file of each of the first `n` workers is among them.
pub proof fn lemma_worker_file(tls: TlsFiles, ram_bytes: u64, vcpus: u32, n: nat, k: nat)
    requires
        1 <= k <= n,
    ensures
        worker_steps(tls, ram_bytes, vcpus, n).contains(
            FileStep::Write(worker_ini_path(k), worker_ini_text(tls, ram_bytes, vcpus, k)),
        ),
    decreases n,
{
    let file = FileStep::Write(worker_ini_path(k), worker_ini_text(tls, ram_bytes, vcpus, k));
    let before = worker_steps(tls, ram_bytes, vcpus, (n - 1) as nat);
    let all = worker_steps(tls, ram_bytes, vcpus, n);
    if k == n {
        assert(all[before.len() as int] == file);
    } else {
        lemma_worker_file(tls, ram_bytes, vcpus, (n - 1) as nat, k);
        let i = choose|i: int| 0 <= i < before.len() && before[i] == file;
        assert(all[i] == file);
    }
}

/// Write the file or see that it is not there.
pub open spec fn present_if(present: bool, path: Seq<char>, text: Seq<char>) -> FileStep {
    if present {
        FileStep::Write(path, text)
    } else {
        FileStep::Remove(path)
    }
}

/// The rules for who may connect. The process that captures changes connects over the socket
/// without a password.
pub open spec fn hba_text(cdc_enabled: bool) -> Seq<char> {
    if cdc_enabled {
        PG_HBA_CONF@ + "local replication replicator trust\n"@
    } else {
        PG_HBA_CONF@
    }
}

/// Whether commits wait for the sink: there is one, and the node is not recovering from it.
pub open spec fn waits_for_sink(cfg: MmdsConfig) -> bool {
    cfg.wal_sink is Some && cfg.recovery_target_time is None
}

/// The configuration files of every boot, `installed` being the libraries that can be preloaded.
pub open spec fn config_steps(cfg: MmdsConfig, tls: TlsFiles, installed: Seq<String>) -> Seq<
    FileStep,
> {
    seq![
        FileStep::Write(
            PGDATA@ + "/postgresql.conf"@,
            lines_out(lines(BEYOND_CONF@), installed),
        ),
        FileStep::Write(PGDATA@ + "/conf.d/06-tls.conf"@, tls_conf_text(tls)),
        FileStep::Write(
            PGDATA@ + "/conf.d/01-tuning.conf"@,
            tuning_boot_text(cfg.ram_bytes, cfg.vcpus),
        ),
        FileStep::Write(
            PGDATA@ + "/conf.d/02-memory.conf"@,
            tuning_adaptive_text(cfg.ram_bytes, cfg.vcpus),
        ),
        present_if(
            cfg.ephemeral,
            PGDATA@ + "/conf.d/03-durability.conf"@,
            DURABILITY_CONF_EPHEMERAL@,
        ),
        present_if(waits_for_sink(cfg), PGDATA@ + "/conf.d/03-wal-sink.conf"@, WAL_SINK_CONF@),
        FileStep::Write(PG_HBA_PATH@, hba_text(cfg.cdc_enabled)),
        FileStep::EnsureDir("/etc/pgbouncer"@),
    ] + worker_steps(tls, cfg.ram_bytes, cfg.vcpus, max_workers(cfg.vcpus) as nat)
}

fn push_present_if(out: &mut Vec<FileOp>, present: bool, path: String, text: &str)
    ensures
        file_steps(final(out)@) == file_steps(old(out)@).push(present_if(present, path@, text@)),
{
    if present {
        push_write(out, path, copy_str(text));
    } else {
        push_op(out, FileOp::Remove(path));
    }
}

/// Lists the file operations for the configuration files of every boot. Files that do not apply
/// are removed, and each pooler worker that may ever run has its file laid down.
pub fn write_config_files(cfg: &MmdsConfig, tls: &TlsConfig, installed: &Vec<String>) -> (r: Vec<
    FileOp,
>)
    ensures
        file_steps(r@) == config_steps(*cfg, tls@, installed@),
{
    let mut out: Vec<FileOp> = Vec::new();
    assert(file_steps(out@) == Seq::<FileStep>::empty());
    push_write(&mut out, beyond_conf_path(), beyond_conf(installed));
    push_write(&mut out, tls_conf_path(), tls_conf(tls));
    push_write(&mut out, tuning_conf_path(), tuning_conf_boot(cfg.ram_bytes, cfg.vcpus));
    push_write(&mut out, memory_conf_path(), tuning_conf_adaptive(cfg.ram_bytes, cfg.vcpus));
    push_present_if(&mut out, cfg.ephemeral, durability_conf_path(), DURABILITY_CONF_EPHEMERAL);
    let waits: bool = cfg.wal_sink.is_some() && cfg.recovery_target_time.is_none();
    push_present_if(&mut out, waits, wal_sink_conf_path(), wal_sink_conf().as_str());
    let mut hba: String = copy_str(PG_HBA_CONF);
    if cfg.cdc_enabled {
        hba.append("local replication replicator trust\n");
    }
    push_write(&mut out, copy_str(PG_HBA_PATH), hba);
    push_op(&mut out, FileOp::EnsureDir(copy_str("/etc/pgbouncer")));
    let ghost head = file_steps(out@);
    let ghost tail = worker_steps(tls@, cfg.ram_bytes, cfg.vcpus, max_workers(cfg.vcpus) as nat);
    assert(head + tail =~= config_steps(*cfg, tls@, installed@));
    let workers: usize = pgbouncer_max_workers(cfg.vcpus);
    assert(head + worker_steps(tls@, cfg.ram_bytes, cfg.vcpus, 0) =~= head);
    for i in 0..workers
        invariant
            workers == max_workers(cfg.vcpus),
            file_steps(out@) == head + worker_steps(tls@, cfg.ram_bytes, cfg.vcpus, i as nat),
    {
        let id: usize = i + 1;
        push_write(
            &mut out,
            pgbouncer_ini_path(id),
            pgbouncer_worker_ini(tls, cfg.ram_bytes, cfg.vcpus, id),
        );
        if workers > 1 {
            push_op(&mut out, FileOp::EnsureOwnedDir(pgb_peer_socket_dir(id)));
        }
        assert(file_steps(out@) =~= head + worker_steps(
            tls@,
            cfg.ram_bytes,
            cfg.vcpus,
            id as nat,
        ));
    }
    out
}

/// A node that recovers never waits for the sink it recovers from: its commits after promotion
/// would hang. Whatever was there before, the file that makes them wait is gone.
pub proof fn law_recovering_node_does_not_wait(
    files: Map<Seq<char>, Seq<char>>,
    cfg: MmdsConfig,
    tls: TlsFiles,
    installed: Seq<String>,
)
    requires
        cfg.recovery_target_time is Some,
    ensures
        !apply_file_steps(files, config_steps(cfg, tls, installed)).contains_key(
            PGDATA@ + "/conf.d/03-wal-sink.conf"@,
        ),
{
    let steps = config_steps(cfg, tls, installed);
    let p = PGDATA@ + "/conf.d/03-wal-sink.conf"@;
    reveal_strlit("/var/lib/postgresql/18/main");
    reveal_strlit("/etc/pgbouncer/pgbouncer-");
    reveal_strlit("/etc/pgbouncer/pgbouncer.ini");
    reveal_strlit("/etc/postgresql/18/main/pg_hba.conf");
    assert(p[1] == 'v' && PG_HBA_PATH@[1] == 'e');
    assert(steps[5] == FileStep::Remove(p));
    let n = max_workers(cfg.vcpus) as nat;
    let tail = worker_steps(tls, cfg.ram_bytes, cfg.vcpus, n);
    assert(steps =~= steps.take(8) + tail);
    lemma_workers_leave_alone(tls, cfg.ram_bytes, cfg.vcpus, n, p);
    lemma_steps_leave_alone(files, steps, 6, p);
}

spec fn leaves_alone(step: FileStep, p: Seq<char>) -> bool {
    match step {
        FileStep::Write(q, _) => p != q,
        FileStep::Touch(q) => p != q,
        _ => true,
    }
}

proof fn lemma_workers_leave_alone(
    tls: TlsFiles,
    ram_bytes: u64,
    vcpus: u32,
    n: nat,
    p: Seq<char>,
)
    requires
        p.len() > 1,
        p[1] == 'v',
    ensures
        forall|i: int|
            0 <= i < worker_steps(tls, ram_bytes, vcpus, n).len() ==> leaves_alone(
                #[trigger] worker_steps(tls, ram_bytes, vcpus, n)[i],
                p,
            ),
    decreases n,
{
    if n > 0 {
        reveal_strlit("/etc/pgbouncer/pgbouncer-");
        reveal_strlit("/etc/pgbouncer/pgbouncer.ini");
        lemma_workers_leave_alone(tls, ram_bytes, vcpus, (n - 1) as nat, p);
        assert(worker_ini_path(n)[1] == 'e');
        let before = worker_steps(tls, ram_bytes, vcpus, (n - 1) as nat);
        let all = worker_steps(tls, ram_bytes, vcpus, n);
        assert forall|i: int| 0 <= i < all.len() implies leaves_alone(#[trigger] all[i], p) by {
            if i < before.len() {
                assert(all[i] == before[i]);
            }
        }
    }
}

proof fn lemma_steps_leave_alone(
    files: Map<Seq<char>, Seq<char>>,
    steps: Seq<FileStep>,
    from: int,
    p: Seq<char>,
)
    requires
        0 < from <= steps.len(),
        steps[from - 1] == FileStep::Remove(p),
        forall|i: int| from <= i < steps.len() ==> leaves_alone(#[trigger] steps[i], p),
    ensures
        !apply_file_steps(files, steps).contains_key(p),
    decreases steps.len(),
{
    if from < steps.len() {
        assert(leaves_alone(steps[steps.len() - 1], p));
        assert forall|i: int| from <= i < steps.drop_last().len() implies leaves_alone(
            #[trigger] steps.drop_last()[i],
            p,
        ) by {
            assert(leaves_alone(steps[i], p));
        }
        lemma_steps_leave_alone(files, steps.drop_last(), from, p);
    }
}

/// Whether an operation has nothing to do with a file.
spec fn spares(step: FileStep, p: Seq<char>) -> bool {
    match step {
        FileStep::Write(q, _) => p != q,
        FileStep::Touch(q) => p != q,
        FileStep::Remove(q) => p != q,
        _ => true,
    }
}

/// The last operation on a file decides what it holds.
proof fn lemma_last_operation_decides(
    files: Map<Seq<char>, Seq<char>>,
    steps: Seq<FileStep>,
    at: int,
    p: Seq<char>,
)
    requires
        0 <= at < steps.len(),
        forall|i: int| at < i < steps.len() ==> spares(#[trigger] steps[i], p),
    ensures
        ({
            let after = apply_file_steps(files, steps);
            &&& forall|t: Seq<char>|
                steps[at] == FileStep::Write(p, t) ==> after.contains_key(p) && after[p] == t
            &&& steps[at] == FileStep::Touch(p) ==> after.contains_key(p)
            &&& steps[at] == FileStep::Remove(p) ==> !after.contains_key(p)
        }),
    decreases steps.len(),
{
    if at < steps.len() - 1 {
        let init = steps.drop_last();
        assert(spares(steps[steps.len() - 1], p));
        assert forall|i: int| at < i < init.len() implies spares(#[trigger] init[i], p) by {
            assert(init[i] == steps[i]);
        }
        lemma_last_operation_decides(files, init, at, p);
    }
}

proof fn lemma_workers_spare(tls: TlsFiles, ram_bytes: u64, vcpus: u32, n: nat, p: Seq<char>)
    requires
        p.len() > 5,
        p[1] != 'e' || p[5] != 'p' || p[6] != 'g',
        p.len() > 6,
    ensures
        forall|i: int|
            0 <= i < worker_steps(tls, ram_bytes, vcpus, n).len() ==> spares(
                #[trigger] worker_steps(tls, ram_bytes, vcpus, n)[i],
                p,
            ),
    decreases n,
{
    if n > 0 {
        reveal_strlit("/etc/pgbouncer/pgbouncer-");
        reveal_strlit("/etc/pgbouncer/pgbouncer.ini");
        lemma_workers_spare(tls, ram_bytes, vcpus, (n - 1) as nat, p);
        let w = worker_ini_path(n);
        assert(w[1] == 'e' && w[5] == 'p' && w[6] == 'g');
        let before = worker_steps(tls, ram_bytes, vcpus, (n - 1) as nat);
        let all = worker_steps(tls, ram_bytes, vcpus, n);
        assert forall|i: int| 0 <= i < all.len() implies spares(#[trigger] all[i], p) by {
            if i < before.len() {
                assert(all[i] == before[i]);
            }
        }
    }
}

/// The files of the server's own directory, as they are named in full.
#[verifier::rlimit(60)]
proof fn lemma_file_names()
    ensures
        PGDATA@ + "/postgresql.conf"@ == "/var/lib/postgresql/18/main/postgresql.conf"@,
        PGDATA@ + "/conf.d/06-tls.conf"@ == "/var/lib/postgresql/18/main/conf.d/06-tls.conf"@,
        PGDATA@ + "/conf.d/01-tuning.conf"@ == "/var/lib/postgresql/18/main/conf.d/01-tuning.conf"@,
        PGDATA@ + "/conf.d/02-memory.conf"@ == "/var/lib/postgresql/18/main/conf.d/02-memory.conf"@,
        PGDATA@ + "/conf.d/03-durability.conf"@ == "/var/lib/postgresql/18/main/conf.d/03-durability.conf"@,
        PGDATA@ + "/conf.d/03-wal-sink.conf"@ == "/var/lib/postgresql/18/main/conf.d/03-wal-sink.conf"@,
        "/etc/postgresql/18/main/pg_hba.conf"@.len() > 6,
        "/var/lib/postgresql/18/main/postgresql.conf"@.len() > 6 && "/var/lib/postgresql/18/main/postgresql.conf"@[1] == 'v',
        "/var/lib/postgresql/18/main/postgresql.conf"@ != "/var/lib/postgresql/18/main/conf.d/06-tls.conf"@,
        "/var/lib/postgresql/18/main/postgresql.conf"@ != "/var/lib/postgresql/18/main/conf.d/01-tuning.conf"@,
        "/var/lib/postgresql/18/main/postgresql.conf"@ != "/var/lib/postgresql/18/main/conf.d/02-memory.conf"@,
        "/var/lib/postgresql/18/main/postgresql.conf"@ != "/var/lib/postgresql/18/main/conf.d/03-durability.conf"@,
        "/var/lib/postgresql/18/main/postgresql.conf"@ != "/var/lib/postgresql/18/main/conf.d/03-wal-sink.conf"@,
        "/var/lib/postgresql/18/main/postgresql.conf"@ != "/etc/postgresql/18/main/pg_hba.conf"@,
        "/var/lib/postgresql/18/main/conf.d/06-tls.conf"@.len() > 6 && "/var/lib/postgresql/18/main/conf.d/06-tls.conf"@[1] == 'v',
        "/var/lib/postgresql/18/main/conf.d/06-tls.conf"@ != "/var/lib/postgresql/18/main/conf.d/01-tuning.conf"@,
        "/var/lib/postgresql/18/main/conf.d/06-tls.conf"@ != "/var/lib/postgresql/18/main/conf.d/02-memory.conf"@,
        "/var/lib/postgresql/18/main/conf.d/06-tls.conf"@ != "/var/lib/postgresql/18/main/conf.d/03-durability.conf"@,
        "/var/lib/postgresql/18/main/conf.d/06-tls.conf"@ != "/var/lib/postgresql/18/main/conf.d/03-wal-sink.conf"@,
        "/var/lib/postgresql/18/main/conf.d/06-tls.conf"@ != "/etc/postgresql/18/main/pg_hba.conf"@,
        "/var/lib/postgresql/18/main/conf.d/01-tuning.conf"@.len() > 6 && "/var/lib/postgresql/18/main/conf.d/01-tuning.conf"@[1] == 'v',
        "/var/lib/postgresql/18/main/conf.d/01-tuning.conf"@ != "/var/lib/postgresql/18/main/conf.d/02-memory.conf"@,
        "/var/lib/postgresql/18/main/conf.d/01-tuning.conf"@ != "/var/lib/postgresql/18/main/conf.d/03-durability.conf"@,
        "/var/lib/postgresql/18/main/conf.d/01-tuning.conf"@ != "/var/lib/postgresql/18/main/conf.d/03-wal-sink.conf"@,
        "/var/lib/postgresql/18/main/conf.d/01-tuning.conf"@ != "/etc/postgresql/18/main/pg_hba.conf"@,
        "/var/lib/postgresql/18/main/conf.d/02-memory.conf"@.len() > 6 && "/var/lib/postgresql/18/main/conf.d/02-memory.conf"@[1] == 'v',
        "/var/lib/postgresql/18/main/conf.d/02-memory.conf"@ != "/var/lib/postgresql/18/main/conf.d/03-durability.conf"@,
        "/var/lib/postgresql/18/main/conf.d/02-memory.conf"@ != "/var/lib/postgresql/18/main/conf.d/03-wal-sink.conf"@,
        "/var/lib/postgresql/18/main/conf.d/02-memory.conf"@ != "/etc/postgresql/18/main/pg_hba.conf"@,
        "/var/lib/postgresql/18/main/conf.d/03-durability.conf"@.len() > 6 && "/var/lib/postgresql/18/main/conf.d/03-durability.conf"@[1] == 'v',
        "/var/lib/postgresql/18/main/conf.d/03-durability.conf"@ != "/var/lib/postgresql/18/main/conf.d/03-wal-sink.conf"@,
        "/var/lib/postgresql/18/main/conf.d/03-durability.conf"@ != "/etc/postgresql/18/main/pg_hba.conf"@,
        "/var/lib/postgresql/18/main/conf.d/03-wal-sink.conf"@.len() > 6 && "/var/lib/postgresql/18/main/conf.d/03-wal-sink.conf"@[1] == 'v',
        "/var/lib/postgresql/18/main/conf.d/03-wal-sink.conf"@ != "/etc/postgresql/18/main/pg_hba.conf"@,
        "/etc/postgresql/18/main/pg_hba.conf"@[5] == 'p',
        "/etc/postgresql/18/main/pg_hba.conf"@[6] == 'o',
{
    reveal_strlit("/var/lib/postgresql/18/main");
    reveal_strlit("/etc/postgresql/18/main/pg_hba.conf");
    reveal_strlit("/postgresql.conf");
    reveal_strlit("/var/lib/postgresql/18/main/postgresql.conf");
    assert(PGDATA@ + "/postgresql.conf"@ =~= "/var/lib/postgresql/18/main/postgresql.conf"@);
    reveal_strlit("/conf.d/06-tls.conf");
    reveal_strlit("/var/lib/postgresql/18/main/conf.d/06-tls.conf");
    assert(PGDATA@ + "/conf.d/06-tls.conf"@ =~= "/var/lib/postgresql/18/main/conf.d/06-tls.conf"@);
    reveal_strlit("/conf.d/01-tuning.conf");
    reveal_strlit("/var/lib/postgresql/18/main/conf.d/01-tuning.conf");
    assert(PGDATA@ + "/conf.d/01-tuning.conf"@ =~= "/var/lib/postgresql/18/main/conf.d/01-tuning.conf"@);
    reveal_strlit("/conf.d/02-memory.conf");
    reveal_strlit("/var/lib/postgresql/18/main/conf.d/02-memory.conf");
    assert(PGDATA@ + "/conf.d/02-memory.conf"@ =~= "/var/lib/postgresql/18/main/conf.d/02-memory.conf"@);
    reveal_strlit("/conf.d/03-durability.conf");
    reveal_strlit("/var/lib/postgresql/18/main/conf.d/03-durability.conf");
    assert(PGDATA@ + "/conf.d/03-durability.conf"@ =~= "/var/lib/postgresql/18/main/conf.d/03-durability.conf"@);
    reveal_strlit("/conf.d/03-wal-sink.conf");
    reveal_strlit("/var/lib/postgresql/18/main/conf.d/03-wal-sink.conf");
    assert(PGDATA@ + "/conf.d/03-wal-sink.conf"@ =~= "/var/lib/postgresql/18/main/conf.d/03-wal-sink.conf"@);
    assert("/var/lib/postgresql/18/main/postgresql.conf"@[28] == 'p' && "/var/lib/postgresql/18/main/conf.d/06-tls.conf"@[28] == 'c');
    assert("/var/lib/postgresql/18/main/postgresql.conf"@[28] == 'p' && "/var/lib/postgresql/18/main/conf.d/01-tuning.conf"@[28] == 'c');
    assert("/var/lib/postgresql/18/main/postgresql.conf"@[28] == 'p' && "/var/lib/postgresql/18/main/conf.d/02-memory.conf"@[28] == 'c');
    assert("/var/lib/postgresql/18/main/postgresql.conf"@[28] == 'p' && "/var/lib/postgresql/18/main/conf.d/03-durability.conf"@[28] == 'c');
    assert("/var/lib/postgresql/18/main/postgresql.conf"@[28] == 'p' && "/var/lib/postgresql/18/main/conf.d/03-wal-sink.conf"@[28] == 'c');
    assert("/var/lib/postgresql/18/main/postgresql.conf"@[1] == 'v');
    assert("/var/lib/postgresql/18/main/conf.d/06-tls.conf"@[36] == '6' && "/var/lib/postgresql/18/main/conf.d/01-tuning.conf"@[36] == '1');
    assert("/var/lib/postgresql/18/main/conf.d/06-tls.conf"@[36] == '6' && "/var/lib/postgresql/18/main/conf.d/02-memory.conf"@[36] == '2');
    assert("/var/lib/postgresql/18/main/conf.d/06-tls.conf"@[36] == '6' && "/var/lib/postgresql/18/main/conf.d/03-durability.conf"@[36] == '3');
    assert("/var/lib/postgresql/18/main/conf.d/06-tls.conf"@[36] == '6' && "/var/lib/postgresql/18/main/conf.d/03-wal-sink.conf"@[36] == '3');
    assert("/var/lib/postgresql/18/main/conf.d/06-tls.conf"@[1] == 'v');
    assert("/var/lib/postgresql/18/main/conf.d/01-tuning.conf"@[36] == '1' && "/var/lib/postgresql/18/main/conf.d/02-memory.conf"@[36] == '2');
    assert("/var/lib/postgresql/18/main/conf.d/01-tuning.conf"@[36] == '1' && "/var/lib/postgresql/18/main/conf.d/03-durability.conf"@[36] == '3');
    assert("/var/lib/postgresql/18/main/conf.d/01-tuning.conf"@[36] == '1' && "/var/lib/postgresql/18/main/conf.d/03-wal-sink.conf"@[36] == '3');
    assert("/var/lib/postgresql/18/main/conf.d/01-tuning.conf"@[1] == 'v');
    assert("/var/lib/postgresql/18/main/conf.d/02-memory.conf"@[36] == '2' && "/var/lib/postgresql/18/main/conf.d/03-durability.conf"@[36] == '3');
    assert("/var/lib/postgresql/18/main/conf.d/02-memory.conf"@[36] == '2' && "/var/lib/postgresql/18/main/conf.d/03-wal-sink.conf"@[36] == '3');
    assert("/var/lib/postgresql/18/main/conf.d/02-memory.conf"@[1] == 'v');
    assert("/var/lib/postgresql/18/main/conf.d/03-durability.conf"@[38] == 'd' && "/var/lib/postgresql/18/main/conf.d/03-wal-sink.conf"@[38] == 'w');
    assert("/var/lib/postgresql/18/main/conf.d/03-durability.conf"@[1] == 'v');
    assert("/var/lib/postgresql/18/main/conf.d/03-wal-sink.conf"@[1] == 'v');
    assert("/etc/postgresql/18/main/pg_hba.conf"@[1] == 'e');
}

/// Whatever was there before, after the files of a boot are laid down:
/// - commits wait for the sink exactly if there is one and the node does not recover from it;
/// - commits do not wait for the disk exactly on a volume that is thrown away;
/// - both tuning files hold what this machine needs, and the certificate is the one in use;
/// - the rules for who may connect let the process that captures changes in without a password
///   exactly if changes are captured.
#[verifier::rlimit(60)]
pub proof fn law_files_follow_the_settings(
    files: Map<Seq<char>, Seq<char>>,
    cfg: MmdsConfig,
    tls: TlsFiles,
    installed: Seq<String>,
)
    ensures
        ({
            let after = apply_file_steps(files, config_steps(cfg, tls, installed));
            let sink = "/var/lib/postgresql/18/main/conf.d/03-wal-sink.conf"@;
            let durability = "/var/lib/postgresql/18/main/conf.d/03-durability.conf"@;
            let tuning = "/var/lib/postgresql/18/main/conf.d/01-tuning.conf"@;
            let memory = "/var/lib/postgresql/18/main/conf.d/02-memory.conf"@;
            let cert = "/var/lib/postgresql/18/main/conf.d/06-tls.conf"@;
            let primary = "/var/lib/postgresql/18/main/postgresql.conf"@;
            let hba = "/etc/postgresql/18/main/pg_hba.conf"@;
            &&& after.contains_key(sink) <==> cfg.wal_sink is Some && cfg.recovery_target_time
                is None
            &&& after.contains_key(sink) ==> entries(after[sink]) == seq![
                ("synchronous_commit"@, "remote_write"@),
                ("synchronous_standby_names"@, "'wal_sink'"@),
            ]
            &&& after.contains_key(durability) <==> cfg.ephemeral
            &&& after.contains_key(durability) ==> entries(after[durability]) == seq![
                ("synchronous_commit"@, "off"@),
                ("autovacuum_vacuum_scale_factor"@, "0.4"@),
                ("autovacuum_naptime"@, "5min"@),
                ("autovacuum_vacuum_cost_delay"@, "20ms"@),
                ("autovacuum_vacuum_cost_limit"@, "200"@),
            ]
            &&& after.contains_key(tuning) && after[tuning] == tuning_boot_text(
                cfg.ram_bytes,
                cfg.vcpus,
            )
            &&& after.contains_key(memory) && after[memory] == tuning_adaptive_text(
                cfg.ram_bytes,
                cfg.vcpus,
            )
            &&& after.contains_key(cert) && after[cert] == tls_conf_text(tls)
            &&& after.contains_key(primary) && after[primary] == lines_out(
                lines(BEYOND_CONF@),
                installed,
            )
            &&& after.contains_key(hba) && after[hba] == if cfg.cdc_enabled {
                PG_HBA_CONF@ + "local replication replicator trust\n"@
            } else {
                PG_HBA_CONF@
            }
        }),
{
    let steps = config_steps(cfg, tls, installed);
    let n = max_workers(cfg.vcpus) as nat;
    let tail = worker_steps(tls, cfg.ram_bytes, cfg.vcpus, n);
    lemma_file_names();
    law_sink_file_makes_commits_wait();
    law_throwaway_file_lets_commits_go();
    assert(steps =~= steps.take(8) + tail);
    lemma_head_decides(files, cfg, tls, installed, 0, "/var/lib/postgresql/18/main/postgresql.conf"@);
    lemma_head_decides(files, cfg, tls, installed, 1, "/var/lib/postgresql/18/main/conf.d/06-tls.conf"@);
    lemma_head_decides(files, cfg, tls, installed, 2, "/var/lib/postgresql/18/main/conf.d/01-tuning.conf"@);
    lemma_head_decides(files, cfg, tls, installed, 3, "/var/lib/postgresql/18/main/conf.d/02-memory.conf"@);
    lemma_head_decides(files, cfg, tls, installed, 4, "/var/lib/postgresql/18/main/conf.d/03-durability.conf"@);
    lemma_head_decides(files, cfg, tls, installed, 5, "/var/lib/postgresql/18/main/conf.d/03-wal-sink.conf"@);
    lemma_head_decides(files, cfg, tls, installed, 6, "/etc/postgresql/18/main/pg_hba.conf"@);
}

proof fn lemma_head_decides(
    files: Map<Seq<char>, Seq<char>>,
    cfg: MmdsConfig,
    tls: TlsFiles,
    installed: Seq<String>,
    at: int,
    p: Seq<char>,
)
    requires
        0 <= at < 8,
        p.len() > 6,
        p[1] != 'e' || p[5] != 'p' || p[6] != 'g',
        forall|i: int|
            at < i < 8 ==> spares(#[trigger] config_steps(cfg, tls, installed)[i], p),
    ensures
        ({
            let steps = config_steps(cfg, tls, installed);
            let after = apply_file_steps(files, steps);
            &&& forall|t: Seq<char>|
                steps[at] == FileStep::Write(p, t) ==> after.contains_key(p) && after[p] == t
            &&& steps[at] == FileStep::Remove(p) ==> !after.contains_key(p)
        }),
{
    let steps = config_steps(cfg, tls, installed);
    let n = max_workers(cfg.vcpus) as nat;
    let tail = worker_steps(tls, cfg.ram_bytes, cfg.vcpus, n);
    lemma_workers_spare(tls, cfg.ram_bytes, cfg.vcpus, n, p);
    assert(steps =~= steps.take(8) + tail);
    assert forall|i: int| at < i < steps.len() implies spares(#[trigger] steps[i], p) by {
        if i >= 8 {
            assert(steps[i] == tail[i - 8]);
        }
    }
    lemma_last_operation_decides(files, steps, at, p);
}

/// The file operation that makes the server start as a standby.
pub open spec fn standby_step() -> FileStep {
    FileStep::Touch(PGDATA@ + "/standby.signal"@)
}

/// The file operation for the settings of a replica, without its representation.
pub open spec fn replica_step(cfg: MmdsConfig) -> FileStep {
    FileStep::Write(
        PGDATA@ + "/conf.d/04-replica.conf"@,
        replica_text(optional(cfg.primary_conninfo)->0, optional(cfg.wal_sink)),
    )
}

/// Lists the file operation that makes the server start as a standby.
pub fn touch_standby_signal() -> (r: FileOp)
    ensures
        r@ == standby_step(),
{
    FileOp::Touch(concat(PGDATA, "/standby.signal"))
}

/// The file operation for the settings of a replica.
pub fn write_replica_conf(cfg: &MmdsConfig) -> (r: FileOp)
    requires
        cfg.primary_conninfo is Some,
    ensures
        r@ == replica_step(*cfg),
{
    let sink: Option<&str> = match &cfg.wal_sink {
        Some(s) => Some(s.as_str()),
        None => None,
    };
    let text: String = match &cfg.primary_conninfo {
        Some(c) => replica_conf(c.as_str(), sink),
        None => String::new(),
    };
    FileOp::Write { path: replica_conf_path(), text }
}

// ---------------------------------------------------------------------------
// Kernel settings.
// ---------------------------------------------------------------------------
/// Where the number of reserved huge pages is set.
pub const NR_HUGEPAGES_PATH: &'static str = "/proc/sys/vm/nr_hugepages";

/// The settings for a machine whose huge pages could not be reserved.
pub const HUGEPAGES_FALLBACK_CONF: &'static str = "# Generated automatically when nr_hugepages reservation\n\
     # failed at boot (apply_kernel_settings). Postgres tries\n\
     # hugepages and falls back to anonymous shmem if unavailable.\n\
     huge_pages = try\n";

/// The number of huge pages of two megabytes that back the shared buffers.
pub open spec fn hugepages_for(shared_buffers_mb: u64) -> int {
    shared_buffers_mb as int / 2 + 32
}

/// The number of huge pages of two megabytes that back the shared buffers, with 64 megabytes
/// left for what else stands in the same segment.
pub fn nr_hugepages(shared_buffers_mb: u64) -> (r: u64)
    ensures
        r == hugepages_for(shared_buffers_mb),
{
    shared_buffers_mb / 2 + 32
}

/// A setting of the kernel.
#[derive(Clone, Copy, Debug, PartialEq, Eq, Structural)]
pub enum KernelStep {
    /// Write the settings for `sysctl` and apply them.
    ApplySysctl,
    /// Stop the kernel from merging pages into huge ones by itself.
    StopTransparentHugepages,
    /// Reserve so many huge pages.
    ReserveHugepages(u64),
}

/// The settings of the kernel for a server with these shared buffers.
pub open spec fn kernel_settings(shared_buffers_mb: u64) -> Seq<KernelStep> {
    seq![
        KernelStep::ApplySysctl,
        KernelStep::StopTransparentHugepages,
        KernelStep::ReserveHugepages(hugepages_for(shared_buffers_mb) as u64),
    ]
}

/// Lists the settings of the kernel for a server with these shared buffers. The kernel stops making
/// huge pages by itself before any are reserved.
pub fn kernel_steps(shared_buffers_mb: u64) -> (r: Vec<KernelStep>)
    ensures
        r@ == kernel_settings(shared_buffers_mb),
{
    let mut out: Vec<KernelStep> = Vec::new();
    out.push(KernelStep::ApplySysctl);
    out.push(KernelStep::StopTransparentHugepages);
    out.push(KernelStep::ReserveHugepages(nr_hugepages(shared_buffers_mb)));
    out
}

/// The reserved pages of two megabytes hold the shared buffers and 64 megabytes more, less what does
/// not fill a page; they are reserved once the kernel no longer takes pages by itself.
pub proof fn law_hugepages_hold_the_buffers(shared_buffers_mb: u64)
    ensures
        shared_buffers_mb + 62 < 2 * hugepages_for(shared_buffers_mb) <= shared_buffers_mb + 64,
        ({
            let s = kernel_settings(shared_buffers_mb);
            &&& s.contains(KernelStep::ApplySysctl)
            &&& s.last() == KernelStep::ReserveHugepages(hugepages_for(shared_buffers_mb) as u64)
            &&& s[s.len() - 2] == KernelStep::StopTransparentHugepages
        }),
{
    assert(kernel_settings(shared_buffers_mb)[0] == KernelStep::ApplySysctl);
}

/// The file operation that lets the server do without huge pages, if it is needed.
pub open spec fn fallback_step(reserved: bool) -> Option<FileStep> {
    if reserved {
        None
    } else {
        Some(
            FileStep::Write(
                PGDATA@ + "/conf.d/99-hugepages-fallback.conf"@,
                HUGEPAGES_FALLBACK_CONF@,
            ),
        )
    }
}

/// Where no huge pages could be reserved, the server is told to do without them: it would refuse
/// to start otherwise.
pub fn hugepages_fallback(reserved: bool) -> (r: Option<FileOp>)
    ensures
        match r {
            Some(op) => fallback_step(reserved) == Some(op@),
            None => fallback_step(reserved) is None,
        },
{
    if reserved {
        None
    } else {
        Some(
            FileOp::Write {
                path: concat(PGDATA, "/conf.d/99-hugepages-fallback.conf"),
                text: copy_str(HUGEPAGES_FALLBACK_CONF),
            },
        )
    }
}


// ---------------------------------------------------------------------------
// Segments of the log that only the sink has.
// ---------------------------------------------------------------------------
/// The line of the control data that names the segment where recovery starts.
pub const REDO_LINE: &'static str = "Latest checkpoint's REDO WAL file:";

/// The segment that a line of the control data names, if it names one.
pub open spec fn redo_in_line(line: Seq<char>) -> Option<Seq<char>> {
    match strip_prefix(line, REDO_LINE@) {
        Some(rest) => if is_segment_name(trim(rest)) {
            Some(trim(rest))
        } else {
            None
        },
        None => None,
    }
}

/// The first segment that a line of the control data names.
pub open spec fn redo_in_lines(ls: Seq<Seq<char>>) -> Option<Seq<char>>
    decreases ls.len(),
{
    if ls.len() == 0 {
        None
    } else {
        match redo_in_line(ls[0]) {
            Some(s) => Some(s),
            None => redo_in_lines(ls.skip(1)),
        }
    }
}

/// The segment where recovery starts, as the control data of a successful run tells it.
pub open spec fn redo_segment(success: bool, stdout: Seq<u8>) -> Option<Seq<char>> {
    if !success {
        None
    } else {
        match utf8_text(stdout) {
            Some(t) => redo_in_lines(lines(t)),
            None => None,
        }
    }
}

fn is_segment(s: &[char]) -> (r: bool)
    ensures
        r == is_segment_name(s@),
{
    s.len() == 24 && is_all_hex(s)
}

/// Finds the segment where recovery starts in what the control data program printed.
pub fn pg_controldata_redo_wal(success: bool, stdout: &[u8]) -> (r: Option<String>)
    ensures
        match r {
            Some(s) => redo_segment(success, stdout@) == Some(s@),
            None => redo_segment(success, stdout@) is None,
        },
{
    if !success {
        return None;
    }
    let text: String = match read_text(stdout) {
        Ok(t) => t,
        Err(_) => return None,
    };
    let cs: Vec<char> = chars_of(text.as_str());
    let ls: Vec<&[char]> = lines_of(cs.as_slice());
    assert(texts(ls@).skip(0) == texts(ls@));
    for i in 0..ls.len()
        invariant
            success,
            utf8_text(stdout@) == Some(text@),
            texts(ls@) == lines(text@),
            redo_in_lines(lines(text@)) == redo_in_lines(texts(ls@).skip(i as int)),
    {
        assert(texts(ls@).skip(i as int)[0] == ls@[i as int]@);
        assert(texts(ls@).skip(i as int).skip(1) == texts(ls@).skip(i + 1));
        match after_prefix(ls[i], REDO_LINE) {
            Some(rest) => {
                let s: &[char] = trimmed(rest);
                if is_segment(s) {
                    return Some(text_of(s));
                }
            },
            None => {},
        }
    }
    None
}

/// Where the sink lists its segments.
pub open spec fn list_url(sink: Seq<char>) -> Seq<char> {
    sink + "/list"@
}

/// Where the sink serves a segment, without its representation.
pub open spec fn segment_url(sink: Seq<char>, segment: Seq<char>) -> Seq<char> {
    sink + "/"@ + segment
}

/// Where a fetched segment is put, without its representation.
pub open spec fn segment_place(segment: Seq<char>) -> Seq<char> {
    path_join(PG_WAL_LINK@, segment)
}

/// Where the sink lists its segments; nothing is fetched without a sink or a place to start from.
pub fn gap_list_url(sink: Option<&str>, redo: Option<&str>) -> (r: Option<String>)
    ensures
        match r {
            Some(url) => sink is Some && redo is Some && url@ == list_url(sink->0@),
            None => sink is None || redo is None,
        },
{
    match (sink, redo) {
        (Some(s), Some(_)) => Some(concat(s, "/list")),
        _ => None,
    }
}

/// The segments of a listing that recovery may need: those at or after the one where it starts.
pub open spec fn needed_segments(ls: Seq<Seq<char>>, redo: Seq<char>) -> Seq<Seq<char>>
    decreases ls.len(),
{
    if ls.len() == 0 {
        seq![]
    } else {
        let before = needed_segments(ls.drop_last(), redo);
        let s = trim(ls.last());
        if is_segment_name(s) && !precedes(s, redo) {
            before.push(s)
        } else {
            before
        }
    }
}

/// Picks the segments that recovery may need from the sink's listing; a listing that is not text
/// is refused with the complaint.
pub fn gap_segments(listing: &[u8], redo: &str) -> (r: Result<Vec<String>, String>)
    ensures
        match r {
            Ok(v) => utf8_text(listing@) is Some && strings(v@) == needed_segments(
                lines(utf8_text(listing@)->0),
                redo@,
            ),
            Err(e) => utf8_text(listing@) is None && e@ == crate::bytes::utf8_complaint(listing@),
        },
{
    let text: String = match read_text(listing) {
        Ok(t) => t,
        Err(e) => return Err(e),
    };
    let start: Vec<char> = chars_of(redo);
    let cs: Vec<char> = chars_of(text.as_str());
    let ls: Vec<&[char]> = lines_of(cs.as_slice());
    let mut out: Vec<String> = Vec::new();
    for i in 0..ls.len()
        invariant
            start@ == redo@,
            strings(out@) == needed_segments(texts(ls@).take(i as int), redo@),
    {
        let ghost before = strings(out@);
        let s: &[char] = trimmed(ls[i]);
        assert(texts(ls@).take(i + 1).drop_last() == texts(ls@).take(i as int));
        assert(texts(ls@).take(i + 1).last() == ls@[i as int]@);
        if is_segment(s) && !comes_before(s, start.as_slice()) {
            out.push(text_of(s));
            assert(strings(out@) == before.push(s@));
        }
    }
    assert(texts(ls@).take(ls@.len() as int) == texts(ls@));
    Ok(out)
}

/// Finds the segment that is to be fetched next, at this place in the list or behind it: the first
/// one that is not there. `present` names what the directory of the log holds, also what was
/// fetched before.
pub fn next_segment(segments: &Vec<String>, from: usize, present: &Vec<String>) -> (r: Option<usize>)
    ensures
        match r {
            Some(i) => from <= i < segments@.len() && !listed(present@, segments@[i as int]@)
                && forall|j: int|
                from <= j < i ==> listed(present@, (#[trigger] segments@[j])@),
            None => forall|j: int|
                from <= j < segments@.len() ==> listed(present@, (#[trigger] segments@[j])@),
        },
{
    let mut i: usize = from;
    while i < segments.len()
        invariant
            from <= i,
            forall|j: int| from <= j < i ==> listed(present@, (#[trigger] segments@[j])@),
        decreases segments@.len() - i,
    {
        let cs: Vec<char> = chars_of(segments[i].as_str());
        if !is_listed(present, cs.as_slice()) {
            return Some(i);
        }
        i = i + 1;
    }
    None
}

/// The places in the list that were fetched from, and what is there, after the first `k` segments:
/// one that is there is passed over, and `ok` tells of each place whether fetching from it works.
pub open spec fn gap_filled(
    segments: Seq<Seq<char>>,
    present: Seq<Seq<char>>,
    ok: Seq<bool>,
    k: int,
) -> (Seq<int>, Seq<Seq<char>>)
    decreases k,
{
    if k <= 0 {
        (seq![], present)
    } else {
        let (fetched, there) = gap_filled(segments, present, ok, k - 1);
        let s = segments[k - 1];
        if there.contains(s) {
            (fetched, there)
        } else if ok[k - 1] {
            (fetched.push(k - 1), there.push(s))
        } else {
            (fetched.push(k - 1), there)
        }
    }
}

/// In the end every segment of the list is there, unless fetching it failed; nothing that was there
/// is fetched, and nothing that was there is lost.
pub proof fn law_what_is_missing_is_fetched(
    segments: Seq<Seq<char>>,
    present: Seq<Seq<char>>,
    ok: Seq<bool>,
    k: int,
)
    requires
        0 <= k <= segments.len(),
        ok.len() == segments.len(),
    ensures
        ({
            let (fetched, there) = gap_filled(segments, present, ok, k);
            &&& forall|i: int|
                0 <= i < k && ok[i] ==> there.contains(#[trigger] segments[i])
            &&& forall|s: Seq<char>| present.contains(s) ==> #[trigger] there.contains(s)
            &&& forall|m: int|
                0 <= m < fetched.len() ==> 0 <= #[trigger] fetched[m] < k && !present.contains(
                    segments[fetched[m]],
                )
        }),
    decreases k,
{
    if k > 0 {
        law_what_is_missing_is_fetched(segments, present, ok, k - 1);
        let (fetched, there) = gap_filled(segments, present, ok, k - 1);
        let s = segments[k - 1];
        let longer = there.push(s);
        assert forall|x: Seq<char>| there.contains(x) implies #[trigger] longer.contains(x) by {
            let i = choose|i: int| 0 <= i < there.len() && there[i] == x;
            assert(longer[i] == x);
        }
        assert(longer.contains(s)) by {
            assert(longer[there.len() as int] == s);
        }
        let (fetched_then, there_then) = gap_filled(segments, present, ok, k);
        assert forall|i: int| 0 <= i < k && ok[i] implies there_then.contains(
            #[trigger] segments[i],
        ) by {
            if i < k - 1 {
                assert(there.contains(segments[i]));
            }
        }
        assert forall|m: int| 0 <= m < fetched_then.len() implies 0 <= #[trigger] fetched_then[m]
            < k && !present.contains(segments[fetched_then[m]]) by {
            if m < fetched.len() {
                assert(fetched_then[m] == fetched[m]);
            }
        }
    }
}

/// Nothing that recovery may need is passed over, and nothing else is fetched.
pub proof fn law_gap_is_filled(ls: Seq<Seq<char>>, redo: Seq<char>)
    ensures
        forall|i: int|
            0 <= i < ls.len() && is_segment_name(trim(#[trigger] ls[i])) && !precedes(
                trim(ls[i]),
                redo,
            ) ==> needed_segments(ls, redo).contains(trim(ls[i])),
        forall|k: int|
            0 <= k < needed_segments(ls, redo).len() ==> {
                let s = #[trigger] needed_segments(ls, redo)[k];
                is_segment_name(s) && !precedes(s, redo) && exists|i: int|
                    0 <= i < ls.len() && s == trim(#[trigger] ls[i])
            },
    decreases ls.len(),
{
    if ls.len() > 0 {
        let init = ls.drop_last();
        let before = needed_segments(init, redo);
        let all = needed_segments(ls, redo);
        law_gap_is_filled(init, redo);
        assert forall|i: int|
            0 <= i < ls.len() && is_segment_name(trim(#[trigger] ls[i])) && !precedes(
                trim(ls[i]),
                redo,
            ) implies all.contains(trim(ls[i])) by {
            if i < init.len() {
                assert(init[i] == ls[i]);
                assert(before.contains(trim(init[i])));
                let k = choose|k: int| 0 <= k < before.len() && before[k] == trim(ls[i]);
                assert(all[k] == trim(ls[i]));
            } else {
                assert(all[all.len() - 1] == trim(ls[i]));
            }
        }
        assert forall|k: int| 0 <= k < all.len() implies ({
            let s = #[trigger] all[k];
            is_segment_name(s) && !precedes(s, redo) && exists|i: int|
                0 <= i < ls.len() && s == trim(#[trigger] ls[i])
        }) by {
            if k < before.len() {
                assert(all[k] == before[k]);
                let i = choose|i: int| 0 <= i < init.len() && before[k] == trim(#[trigger] init[i]);
                assert(ls[i] == init[i]);
            } else {
                assert(all[k] == trim(ls[ls.len() - 1]));
            }
        }
    }
}

/// Where the sink serves a segment.
pub fn gap_segment_url(sink: &str, segment: &str) -> (r: String)
    ensures
        r@ == segment_url(sink@, segment@),
{
    let mut out: String = concat(sink, "/");
    out.append(segment);
    out
}

/// Where a fetched segment is put.
pub fn gap_segment_path(segment: &str) -> (r: String)
    ensures
        r@ == segment_place(segment@),
{
    join_path(PG_WAL_LINK, segment)
}

// ---------------------------------------------------------------------------
// Scripts.
// ---------------------------------------------------------------------------
/// An entry of a directory of scripts.
#[derive(Debug)]
pub struct ScriptEntry {
    pub name: String,
    pub is_file: bool,
    /// The mode bits of the file; none if they could not be read.
    pub mode: u32,
}

/// Whether an entry is run: it is a file that someone may execute.
pub open spec fn is_script(e: ScriptEntry) -> bool {
    e.is_file && e.mode & 0o111 != 0
}

/// The order in which scripts run: the places of the entries that are scripts, each once, by name.
pub open spec fn is_script_order(entries: Seq<ScriptEntry>, order: Seq<usize>) -> bool {
    &&& order.no_duplicates()
    &&& forall|k: int| 0 <= k < order.len() ==> (#[trigger] order[k]) < entries.len() && is_script(
        entries[order[k] as int],
    )
    &&& forall|i: int|
        0 <= i < entries.len() && is_script(#[trigger] entries[i]) ==> order.contains(i as usize)
    &&& forall|j: int, k: int|
        0 <= j < k < order.len() ==> !precedes(
            entries[#[trigger] order[k] as int].name@,
            entries[#[trigger] order[j] as int].name@,
        )
}

fn name_before(entries: &Vec<ScriptEntry>, a: usize, b: usize) -> (r: bool)
    requires
        a < entries.len(),
        b < entries.len(),
    ensures
        r == precedes(entries@[a as int].name@, entries@[b as int].name@),
{
    let x: Vec<char> = chars_of(entries[a].name.as_str());
    let y: Vec<char> = chars_of(entries[b].name.as_str());
    comes_before(x.as_slice(), y.as_slice())
}

/// Orders the scripts of a directory.
pub fn script_order(entries: &Vec<ScriptEntry>) -> (r: Vec<usize>)
    ensures
        is_script_order(entries@, r@),
{
    let mut out: Vec<usize> = Vec::new();
    for i in 0..entries.len()
        invariant
            is_script_order(entries@.take(i as int), out@),
    {
        let ghost seen = entries@.take(i as int);
        let ghost next = entries@.take(i + 1);
        assert(next.drop_last() == seen);
        if entries[i].is_file && entries[i].mode & 0o111 != 0 {
            let ghost before = out@;
            let mut at: usize = out.len();
            while at > 0 && name_before(entries, i, out[at - 1])
                invariant
                    at <= out@.len(),
                    i < entries@.len(),
                    forall|k: int| 0 <= k < out@.len() ==> (#[trigger] out@[k]) < i,
                    forall|k: int|
                        at <= k < out@.len() ==> precedes(
                            entries@[i as int].name@,
                            entries@[#[trigger] out@[k] as int].name@,
                        ),
                decreases at,
            {
                at = at - 1;
            }
            proof {
                lemma_insert_script(entries@, before, i, at);
            }
            out.insert(at, i);
        } else {
            proof {
                lemma_skip_script(entries@, out@, i);
            }
        }
    }
    assert(entries@.take(entries@.len() as int) == entries@);
    out
}

proof fn lemma_skip_script(entries: Seq<ScriptEntry>, order: Seq<usize>, i: usize)
    requires
        i < entries.len(),
        is_script_order(entries.take(i as int), order),
        !is_script(entries[i as int]),
    ensures
        is_script_order(entries.take(i + 1), order),
{
    let seen = entries.take(i as int);
    let next = entries.take(i + 1);
    assert forall|k: int| 0 <= k < order.len() implies (#[trigger] order[k]) < next.len()
        && is_script(next[order[k] as int]) by {
        assert(next[order[k] as int] == seen[order[k] as int]);
    }
    assert forall|j: int| 0 <= j < next.len() && is_script(#[trigger] next[j]) implies order.contains(
        j as usize,
    ) by {
        assert(j < i);
        assert(is_script(seen[j]));
    }
    assert forall|j: int, k: int| 0 <= j < k < order.len() implies !precedes(
        next[#[trigger] order[k] as int].name@,
        next[#[trigger] order[j] as int].name@,
    ) by {
        assert(next[order[k] as int] == seen[order[k] as int]);
        assert(next[order[j] as int] == seen[order[j] as int]);
    }
}

proof fn lemma_insert_script(entries: Seq<ScriptEntry>, order: Seq<usize>, i: usize, at: usize)
    requires
        i < entries.len(),
        is_script_order(entries.take(i as int), order),
        is_script(entries[i as int]),
        at <= order.len(),
        forall|k: int|
            at <= k < order.len() ==> precedes(
                entries[i as int].name@,
                entries[#[trigger] order[k] as int].name@,
            ),
        at > 0 ==> !precedes(
            entries[i as int].name@,
            entries[order[at - 1] as int].name@,
        ),
    ensures
        is_script_order(entries.take(i + 1), order.insert(at as int, i)),
{
    let seen = entries.take(i as int);
    let next = entries.take(i + 1);
    let all = order.insert(at as int, i);
    let name = entries[i as int].name@;
    assert forall|k: int| 0 <= k < all.len() implies all[k] == (if k < at {
        order[k]
    } else if k == at {
        i
    } else {
        order[k - 1]
    }) by {}
    assert forall|k: int| 0 <= k < all.len() implies (#[trigger] all[k]) < next.len() && is_script(
        next[all[k] as int],
    ) by {
        if k < at {
            assert(is_script(seen[order[k] as int]));
        } else if k > at {
            assert(is_script(seen[order[k - 1] as int]));
        }
    }
    assert(all.no_duplicates()) by {
        assert forall|j: int, k: int| 0 <= j < k < all.len() implies all[j] != all[k] by {
            if j < at {
                assert(order[j] < i);
            }
            if k > at {
                assert(order[k - 1] < i);
            }
        }
    }
    assert forall|j: int| 0 <= j < next.len() && is_script(#[trigger] next[j]) implies all.contains(
        j as usize,
    ) by {
        if j == i {
            assert(all[at as int] == j as usize);
        } else {
            assert(is_script(seen[j]));
            let k = choose|k: int| 0 <= k < order.len() && order[k] == j as usize;
            if k < at {
                assert(all[k] == j as usize);
            } else {
                assert(all[k + 1] == j as usize);
            }
        }
    }
    assert forall|j: int| 0 <= j < at implies !precedes(
        name,
        entries[#[trigger] order[j] as int].name@,
    ) by {
        let last = entries[order[at - 1] as int].name@;
        let this = entries[order[j] as int].name@;
        assert(seen[order[at - 1] as int] == entries[order[at - 1] as int]);
        assert(seen[order[j] as int] == entries[order[j] as int]);
        if j < at - 1 {
            assert(!precedes(last, this));
            if precedes(name, this) {
                if last != this {
                    lemma_precedes_total(last, this);
                    lemma_precedes_transitive(name, this, last);
                }
            }
        }
    }
    assert forall|j: int, k: int| 0 <= j < k < all.len() implies !precedes(
        next[#[trigger] all[k] as int].name@,
        next[#[trigger] all[j] as int].name@,
    ) by {
        if k < at {
            assert(!precedes(seen[order[k] as int].name@, seen[order[j] as int].name@));
        } else if k == at {
            assert(!precedes(name, entries[order[j] as int].name@));
        } else if j == at {
            let other = entries[order[k - 1] as int].name@;
            assert(precedes(name, other));
            if precedes(other, name) {
                lemma_precedes_transitive(name, other, name);
                lemma_precedes_irreflexive(name);
            }
        } else if j < at {
            assert(!precedes(seen[order[k - 1] as int].name@, seen[order[j] as int].name@));
        } else {
            assert(!precedes(seen[order[k - 1] as int].name@, seen[order[j - 1] as int].name@));
        }
    }
}

/// What is wrong with a script that ran, if anything is.
pub open spec fn script_fault(path: Seq<char>, success: bool, code: Option<i32>) -> Option<
    BootErrorKind,
> {
    if success {
        None
    } else {
        Some(
            BootErrorKind::HookFailed(
                path,
                match code {
                    Some(c) => c,
                    None => -1i32,
                },
            ),
        )
    }
}

/// Judges a script that ran: anything but success ends the boot.
pub fn script_outcome(path: &str, success: bool, code: Option<i32>) -> (r: Result<(), BootError>)
    ensures
        match r {
            Ok(()) => script_fault(path@, success, code) is None,
            Err(e) => script_fault(path@, success, code) == Some(e@),
        },
{
    if success {
        return Ok(());
    }
    let code: i32 = match code {
        Some(c) => c,
        None => -1,
    };
    Err(BootError::HookFailed { path: copy_str(path), code })
}

/// How long to wait before a script is started again, in milliseconds, if it is.
pub open spec fn busy_delay(busy: bool, attempt: u32) -> Option<u64> {
    if busy && attempt == 0 {
        Some(10u64)
    } else if busy && attempt == 1 {
        Some(20u64)
    } else if busy && attempt == 2 {
        Some(40u64)
    } else {
        None
    }
}

/// How long to wait before a script is started again whose file is still open for writing: 10, 20
/// and 40 milliseconds, then it fails.
pub fn busy_retry_delay_ms(busy: bool, attempt: u32) -> (r: Option<u64>)
    ensures
        r == busy_delay(busy, attempt),
{
    if !busy {
        None
    } else if attempt == 0 {
        Some(10)
    } else if attempt == 1 {
        Some(20)
    } else if attempt == 2 {
        Some(40)
    } else {
        None
    }
}

// ---------------------------------------------------------------------------
// Laws.
// ---------------------------------------------------------------------------
/// Which steps a boot takes: a replica copies its primary, is told to start as a standby and where
/// its primary is, and its files are given to the server; any other node makes a cluster of its own
/// where there is none, fetches what the sink has of its log, and is told where to recover to. All
/// of them check the log, get a certificate and configuration files, and have the kernel prepared
/// for a quarter of the memory, at least 128 MB, of shared buffers. No step is taken twice.
pub proof fn law_boot_follows_the_tier(tier: PgTier, ram_bytes: u64)
    ensures
        ({
            let s = steps_for(tier, ram_bytes);
            let replica = tier == PgTier::Replica;
            let quarter = ram_bytes as int / 1_048_576 / 4;
            &&& s.no_duplicates()
            &&& s.contains(BootStep::BaseBackup) <==> replica
            &&& s.contains(BootStep::TouchStandbySignal) <==> replica
            &&& s.contains(BootStep::WriteReplicaConf) <==> replica
            &&& s.contains(BootStep::ChownDataTree) <==> replica
            &&& s.contains(BootStep::MaybeInitdb) <==> !replica
            &&& s.contains(BootStep::FetchWalGap) <==> !replica
            &&& s.contains(BootStep::WritePitrConfig) <==> !replica
            &&& s.contains(BootStep::EnsureSocketDir) && s.contains(BootStep::EnsureConfD)
            &&& s.contains(BootStep::VerifyWalSymlink) && s.contains(BootStep::ProvisionTls)
            &&& s.contains(BootStep::WriteConfigFiles) && s.contains(BootStep::RunPreStartHooks)
            &&& s.contains(
                BootStep::ApplyKernelSettings(
                    if quarter > 128 {
                        quarter as u64
                    } else {
                        128
                    },
                ),
            )
        }),
{
    let s = steps_for(tier, ram_bytes);
    if tier == PgTier::Replica {
        assert(s[0] == BootStep::EnsureSocketDir && s[1] == BootStep::BaseBackup && s[2]
            == BootStep::TouchStandbySignal && s[3] == BootStep::EnsureConfD && s[4]
            == BootStep::VerifyWalSymlink && s[5] == BootStep::ProvisionTls && s[6]
            == BootStep::WriteConfigFiles && s[7] == BootStep::WriteReplicaConf && s[8]
            == BootStep::ChownDataTree && s[9] is ApplyKernelSettings && s[10]
            == BootStep::RunPreStartHooks);
    } else {
        assert(s[0] == BootStep::EnsureSocketDir && s[1] == BootStep::MaybeInitdb && s[2]
            == BootStep::EnsureConfD && s[3] == BootStep::VerifyWalSymlink && s[4]
            == BootStep::FetchWalGap && s[5] == BootStep::ProvisionTls && s[6]
            == BootStep::WriteConfigFiles && s[7] == BootStep::WritePitrConfig && s[8]
            is ApplyKernelSettings && s[9] == BootStep::RunPreStartHooks);
    }
}

/// An initialized data directory is never touched. Any other becomes one: from the template exactly
/// if there is one, as the last step and once the directory is there and belongs to the server; one
/// that was left half done, and only such a one, is removed first.
pub proof fn law_cluster_is_made_once(state: PgdataState, template: bool)
    ensures
        ({
            let s = init_steps(state, template);
            &&& s.len() == 0 <==> state == PgdataState::Initialized
            &&& s.contains(InitStep::RemovePgdata) <==> state == PgdataState::Partial
            &&& state == PgdataState::Partial ==> s[0] == InitStep::RemovePgdata
            &&& s.contains(InitStep::CreatePgdata) <==> state == PgdataState::Partial || state
                == PgdataState::Missing
            &&& s.contains(InitStep::MaterializeTemplate) <==> template && state
                != PgdataState::Initialized
            &&& s.contains(InitStep::RunInitdb) <==> !template && state != PgdataState::Initialized
            &&& state != PgdataState::Initialized ==> s.len() >= 2 && s[s.len() - 2]
                == InitStep::ChownDataTree && (s.last() == InitStep::MaterializeTemplate || s.last()
                == InitStep::RunInitdb)
        }),
{
    let s = init_steps(state, template);
    match state {
        PgdataState::Initialized => {},
        PgdataState::Partial => {
            assert(s[0] == InitStep::RemovePgdata && s[1] == InitStep::CreatePgdata && s[3]
                == s.last());
        },
        PgdataState::Empty => {
            assert(s[0] == InitStep::ChownDataTree && s[1] == s.last());
        },
        PgdataState::Missing => {
            assert(s[0] == InitStep::CreatePgdata && s[2] == s.last());
        },
    }
}

/// A log that is a plain directory is refused as such, whatever else holds: it may be the only copy.
/// So is a missing one, and a link to a place that does not start at the root or has another number
/// of parts than the log's.
pub proof fn law_misplaced_log_is_refused(target: String)
    ensures
        wal_link_fault(WalLink::Directory) == Some(BootErrorKind::WalIsDirectory),
        wal_link_fault(WalLink::Missing) is Some,
        wal_link_fault(WalLink::Other) is None,
        target@.len() == 0 || target@[0] != '/' ==> wal_link_fault(WalLink::Symlink(target))
            == Some(BootErrorKind::WalWrongTarget("/var/lib/postgresql/18/wal"@, target@)),
        path_parts(split(target@, '/')) != path_parts(split("/var/lib/postgresql/18/wal"@, '/'))
            ==> wal_link_fault(WalLink::Symlink(target)) == Some(
            BootErrorKind::WalWrongTarget("/var/lib/postgresql/18/wal"@, target@),
        ),
{
    reveal_strlit("/");
    if target@.len() > 0 && target@.take(1) == "/"@ {
        assert(target@.take(1)[0] == target@[0]);
    }
}

/// Whatever was there before: with a time to recover to, the server is told to recover, and from
/// where and to when, over HTTP where the place is a web address; without one nothing tells it to.
pub proof fn law_recovery_is_asked_for(
    files: Map<Seq<char>, Seq<char>>,
    cfg: MmdsConfig,
    pgdata: Seq<char>,
)
    requires
        cfg.recovery_target_time is Some ==> cfg.wal_sink is Some,
    ensures
        ({
            let after = apply_file_steps(files, pitr_steps(cfg, pgdata));
            let conf = path_join(pgdata, "conf.d/05-pitr.conf"@);
            let signal = path_join(pgdata, "recovery.signal"@);
            &&& after.contains_key(signal) <==> cfg.recovery_target_time is Some
            &&& after.contains_key(conf) <==> cfg.recovery_target_time is Some
            &&& cfg.recovery_target_time matches Some(t) ==> {
                let from = optional(cfg.wal_sink)->0;
                let web = starts_with(from, "http://"@) || starts_with(from, "https://"@);
                &&& web ==> after[conf] == sink_recovery_text(from, Some(t@))
                &&& !web ==> after[conf] == pitr_text(from, Some(t@))
            }
        }),
{
    let steps = pitr_steps(cfg, pgdata);
    let conf = path_join(pgdata, "conf.d/05-pitr.conf"@);
    let signal = path_join(pgdata, "recovery.signal"@);
    reveal_strlit("conf.d/05-pitr.conf");
    reveal_strlit("recovery.signal");
    assert(conf.last() == 'f' && signal.last() == 'l');
    reveal_with_fuel(apply_file_steps, 3);
    assert(steps.drop_last().drop_last() =~= seq![]);
}

/// A script runs exactly if it is a file that its owner, its group or others may execute.
pub proof fn law_executable_files_run(e: ScriptEntry)
    ensures
        is_script(e) <==> e.is_file && (e.mode as int % 2 == 1 || e.mode as int / 8 % 2 == 1
            || e.mode as int / 64 % 2 == 1),
{
    let m = e.mode;
    assert((m & 0o111 != 0) <==> (m % 2 == 1 || (m / 8) % 2 == 1 || (m / 64) % 2 == 1))
        by (bit_vector);
}

/// A script that does not succeed ends the boot, and its path and exit code are told; one without a
/// code, as after a signal, counts as -1. One that succeeds ends nothing.
pub proof fn law_failed_script_ends_the_boot(path: Seq<char>, success: bool, code: Option<i32>)
    ensures
        success <==> script_fault(path, success, code) is None,
        script_fault(path, success, code) matches Some(e) ==> e is HookFailed && e->HookFailed_0
            == path && (code matches Some(c) ==> e->HookFailed_1 == c) && (code is None
            ==> e->HookFailed_1 == -1),
{
}

/// A script whose file is busy is tried three times more, after 10 ms and then after twice as long
/// each time; any other failure is not tried again.
pub proof fn law_busy_script_is_tried_again(busy: bool, attempt: u32)
    ensures
        !busy || attempt >= 3 <==> busy_delay(busy, attempt) is None,
        busy_delay(true, 0) == Some(10u64),
        attempt < 2 ==> busy_delay(true, (attempt + 1) as u32) == Some(
            (2 * busy_delay(true, attempt)->0) as u64,
        ),
{
}

/// The segment that the control data names behind `Latest checkpoint's REDO WAL file:` is found
/// wherever the line stands, with any white space around it, behind lines for other things.
#[verifier::rlimit(60)]
pub proof fn law_redo_segment_is_found(before: Seq<char>, segment: Seq<char>, after: Seq<char>)
    requires
        is_segment_name(segment),
        before.len() > 0 ==> before.last() == '\n',
        forall|i: int|
            0 <= i < lines(before).len() ==> !starts_with(
                #[trigger] lines(before)[i],
                "Latest checkpoint's REDO WAL file:"@,
            ),
    ensures
        ({
            let line = "Latest checkpoint's REDO WAL file:"@ + "    "@ + segment;
            let text = before + line.push('\n') + after;
            &&& redo_segment(true, encode_utf8(text)) == Some(segment)
            &&& redo_segment(false, encode_utf8(text)) is None
        }),
{
    let line = "Latest checkpoint's REDO WAL file:"@ + "    "@ + segment;
    let text = before + line.push('\n') + after;
    law_text_reads_back(text);
    reveal_strlit("Latest checkpoint's REDO WAL file:");
    reveal_strlit("    ");
    lemma_hex_visible(segment);
    let n = "Latest checkpoint's REDO WAL file:"@.len() as int;
    assert forall|j: int| 0 <= j < line.len() implies #[trigger] line[j] != '\n' by {
        if j >= n + 4 {
            assert(line[j] == segment[j - n - 4]);
        }
    }
    assert(line.last() == segment[23]);
    lemma_lines_first(line, after);
    lemma_lines_concat(before, line.push('\n') + after);
    assert(text =~= before + (line.push('\n') + after));
    assert(strip_cr(line) == line);
    assert(lines(text) =~= lines(before) + (seq![line] + lines(after)));
    lemma_redo_found(lines(before), seq![line] + lines(after));
    assert(line.take(n) =~= "Latest checkpoint's REDO WAL file:"@);
    let rest = line.skip(n);
    assert(rest =~= "    "@ + segment);
    assert(is_white(' '));
    assert(rest.skip(1).skip(1).skip(1).skip(1) =~= segment);
    assert(trim_start(rest) == trim_start(rest.skip(1)));
    assert(trim_start(rest.skip(1)) == trim_start(rest.skip(1).skip(1)));
    assert(trim_start(rest.skip(1).skip(1)) == trim_start(rest.skip(1).skip(1).skip(1)));
    assert(trim_start(rest.skip(1).skip(1).skip(1)) == trim_start(segment));
    lemma_trim_visible(segment);
}

proof fn lemma_hex_visible(segment: Seq<char>)
    requires
        is_segment_name(segment),
    ensures
        segment.len() == 24,
        forall|j: int|
            0 <= j < segment.len() ==> !is_white(#[trigger] segment[j]) && segment[j] != '\n'
                && segment[j] != '\r',
{
    assert forall|j: int| 0 <= j < segment.len() implies !is_white(#[trigger] segment[j])
        && segment[j] != '\n' && segment[j] != '\r' by {
        assert(digit_value(segment[j]) < 16);
    }
}

proof fn lemma_redo_found(before: Seq<Seq<char>>, rest: Seq<Seq<char>>)
    requires
        forall|i: int|
            0 <= i < before.len() ==> !starts_with(
                #[trigger] before[i],
                "Latest checkpoint's REDO WAL file:"@,
            ),
    ensures
        redo_in_lines(before + rest) == redo_in_lines(rest),
    decreases before.len(),
{
    let all = before + rest;
    if before.len() == 0 {
        assert(all =~= rest);
    } else {
        let tail = before.skip(1);
        assert(!starts_with(before[0], "Latest checkpoint's REDO WAL file:"@));
        assert(all[0] == before[0]);
        assert(all.skip(1) =~= tail + rest);
        assert forall|i: int| 0 <= i < tail.len() implies !starts_with(
            #[trigger] tail[i],
            "Latest checkpoint's REDO WAL file:"@,
        ) by {
            assert(tail[i] == before[i + 1]);
        }
        lemma_redo_found(tail, rest);
    }
}

/// A replica is told to start as a standby, and where its primary is; what follows the settings of
/// its primary is stated of their text.
pub proof fn law_replica_is_told(files: Map<Seq<char>, Seq<char>>, cfg: MmdsConfig, primary: String)
    requires
        cfg.primary_conninfo == Some(primary),
    ensures
        apply_file_step(files, standby_step()).contains_key(
            "/var/lib/postgresql/18/main/standby.signal"@,
        ),
        ({
            let after = apply_file_step(files, replica_step(cfg));
            let conf = "/var/lib/postgresql/18/main/conf.d/04-replica.conf"@;
            after.contains_key(conf) && after[conf] == replica_text(
                primary@,
                optional(cfg.wal_sink),
            )
        }),
{
    reveal_strlit("/var/lib/postgresql/18/main");
    reveal_strlit("/standby.signal");
    reveal_strlit("/var/lib/postgresql/18/main/standby.signal");
    reveal_strlit("/conf.d/04-replica.conf");
    reveal_strlit("/var/lib/postgresql/18/main/conf.d/04-replica.conf");
    assert(PGDATA@ + "/standby.signal"@ =~= "/var/lib/postgresql/18/main/standby.signal"@);
    assert(PGDATA@ + "/conf.d/04-replica.conf"@
        =~= "/var/lib/postgresql/18/main/conf.d/04-replica.conf"@);
}

/// The server is let off huge pages exactly if they could not be reserved: it then tries them and
/// goes on without.
pub proof fn law_hugepages_are_optional_without_reserve(
    files: Map<Seq<char>, Seq<char>>,
    reserved: bool,
)
    ensures
        fallback_step(reserved) is None <==> reserved,
        fallback_step(reserved) matches Some(step) ==> ({
            let after = apply_file_step(files, step);
            let conf = "/var/lib/postgresql/18/main/conf.d/99-hugepages-fallback.conf"@;
            after.contains_key(conf) && entries(after[conf]) == seq![("huge_pages"@, "try"@)]
        }),
{
    reveal_strlit("/var/lib/postgresql/18/main");
    reveal_strlit("/conf.d/99-hugepages-fallback.conf");
    reveal_strlit("/var/lib/postgresql/18/main/conf.d/99-hugepages-fallback.conf");
    assert(PGDATA@ + "/conf.d/99-hugepages-fallback.conf"@
        =~= "/var/lib/postgresql/18/main/conf.d/99-hugepages-fallback.conf"@);
    law_fallback_tries_huge_pages();
}

/// The sink is asked for its list under `/list`, and for a segment under its name; a segment goes
/// into the cluster's log under that name.
pub proof fn law_segments_are_asked_for_by_name(host: Seq<char>, segment: Seq<char>)
    requires
        forall|j: int| 0 <= j < host.len() ==> #[trigger] host[j] != '/',
        is_segment_name(segment),
    ensures
        http_target(list_url("http://"@ + host)) == Ok::<(Seq<char>, Seq<char>), Seq<char>>(
            (host, "/list"@),
        ),
        http_target(segment_url("http://"@ + host, segment)) == Ok::<
            (Seq<char>, Seq<char>),
            Seq<char>,
        >((host, "/"@ + segment)),
        segment_place(segment) == "/var/lib/postgresql/18/main/pg_wal/"@ + segment,
{
    reveal_strlit("/");
    reveal_strlit("/list");
    reveal_strlit("/var/lib/postgresql/18/main/pg_wal");
    reveal_strlit("/var/lib/postgresql/18/main/pg_wal/");
    lemma_hex_visible(segment);
    assert(segment[0] != '/') by {
        assert(digit_value(segment[0]) < 16);
    }
    law_url_is_taken_apart(host, "/list"@);
    law_url_is_taken_apart(host, "/"@ + segment);
    assert(segment_url("http://"@ + host, segment) =~= "http://"@ + host + ("/"@ + segment));
    assert(segment_place(segment) =~= "/var/lib/postgresql/18/main/pg_wal/"@ + segment);
}

/// Scripts run in the order of their names, every one of them once, and nothing else does.
pub proof fn law_scripts_run_by_name(entries: Seq<ScriptEntry>, order: Seq<usize>, i: int, j: int, k: int)
    requires
        is_script_order(entries, order),
        0 <= i < entries.len() <= usize::MAX,
        0 <= j < k < order.len(),
    ensures
        order.contains(i as usize) <==> entries[i].is_file && entries[i].mode & 0o111 != 0,
        order[j] != order[k],
        entries[order[j] as int].name@ == entries[order[k] as int].name@ || precedes(
            entries[order[j] as int].name@,
            entries[order[k] as int].name@,
        ),
{
    let (a, b) = (entries[order[j] as int].name@, entries[order[k] as int].name@);
    if a != b {
        lemma_precedes_total(a, b);
    }
    if order.contains(i as usize) {
        let m = choose|m: int| 0 <= m < order.len() && order[m] == i as usize;
        assert(is_script(entries[order[m] as int]));
    }
    if is_script(entries[i]) {
        assert(order.contains(i as usize));
    }
}

/// Every pooler worker that the machine may ever run, one for each four CPUs and at most eight, has
/// its own file laid down at every boot.
pub proof fn law_every_worker_has_its_file(cfg: MmdsConfig, tls: TlsFiles, installed: Seq<String>, k: nat)
    requires
        1 <= k <= 8,
        k == 1 || 4 * k <= cfg.vcpus,
    ensures
        config_steps(cfg, tls, installed).contains(
            FileStep::Write(
                if k == 1 {
                    "/etc/pgbouncer/pgbouncer.ini"@
                } else {
                    "/etc/pgbouncer/pgbouncer-"@ + decimal(k) + ".ini"@
                },
                worker_ini_text(tls, cfg.ram_bytes, cfg.vcpus, k),
            ),
        ),
{
    let n = max_workers(cfg.vcpus) as nat;
    let tail = worker_steps(tls, cfg.ram_bytes, cfg.vcpus, n);
    let all = config_steps(cfg, tls, installed);
    lemma_worker_file(tls, cfg.ram_bytes, cfg.vcpus, n, k);
    let file = FileStep::Write(
        worker_ini_path(k),
        worker_ini_text(tls, cfg.ram_bytes, cfg.vcpus, k),
    );
    let i = choose|i: int| 0 <= i < tail.len() && tail[i] == file;
    assert(all[8 + i] == file);
}

/// The directory of a path is what stands before its last part and the slash in front of that,
/// however many slashes and dots that name nothing stand behind; the root and the empty path lie in
/// none.
pub proof fn law_directory_of_a_path(dir: Seq<char>, name: Seq<char>)
    requires
        dir.len() > 1,
        dir[0] == '/',
        dir.last() != '/',
        dir.last() != '.',
        name.len() > 0,
        name != seq!['.'],
        forall|j: int| 0 <= j < name.len() ==> #[trigger] name[j] != '/',
    ensures
        parent_dir(dir.push('/') + name) == Some(dir),
        parent_dir((dir.push('/') + name).push('/')) == Some(dir),
        parent_dir(seq!['/']) is None,
        parent_dir(seq![]) is None,
{
    let p = dir.push('/') + name;
    let n = dir.len() as int;
    lemma_part_cut(dir, name);
    assert(tidy_path(p) == p);
    lemma_tidy(dir);
    let q = p.push('/');
    lemma_last_of(q.skip(1), '/');
    assert(q.skip(1)[q.len() - 2] == '/');
    assert(last_of(q.skip(1), '/') == q.len() - 2);
    assert(last_component(q) == q.len());
    assert(q.skip(q.len() as int) =~= Seq::<char>::empty());
    assert(before_last(q) =~= p);
    assert(tidy_path(q) == tidy_path(p));
    let root = seq!['/'];
    assert(tidy_path(root) == root);
    assert(tidy_path(Seq::<char>::empty()) == Seq::<char>::empty());
}

proof fn lemma_part_cut(dir: Seq<char>, name: Seq<char>)
    requires
        dir.len() > 1,
        dir[0] == '/',
        name.len() > 0,
        name != seq!['.'],
        forall|j: int| 0 <= j < name.len() ==> #[trigger] name[j] != '/',
    ensures
        ({
            let p = dir.push('/') + name;
            &&& path_lead(p) == 1
            &&& last_component(p) == dir.len() + 1
            &&& p.skip(last_component(p)) == name
            &&& before_last(p) == dir
        }),
{
    let p = dir.push('/') + name;
    let n = dir.len() as int;
    let body = p.skip(1);
    lemma_last_of(body, '/');
    assert(body[n - 1] == '/');
    assert forall|j: int| n - 1 < j < body.len() implies body[j] != '/' by {
        assert(body[j] == name[j - n]);
    }
    assert(last_of(body, '/') == n - 1);
    assert(p.skip(n + 1) =~= name);
    assert(p.take(n) =~= dir);
}

/// A path that ends in neither a slash nor a dot has nothing at its end that names nothing.
proof fn lemma_tidy(p: Seq<char>)
    requires
        p.len() > 1,
        p[0] == '/',
        p.last() != '/',
        p.last() != '.',
    ensures
        tidy_path(p) == p,
{
    lemma_before_last(p);
    let at = last_component(p);
    lemma_last_of(p.skip(1), '/');
    if at == p.len() {
        assert(p.skip(1)[p.len() - 2] == '/');
    } else {
        assert(p.skip(at).last() == p.last());
        assert(seq!['.'].last() == '.');
    }
}

} // verus!
