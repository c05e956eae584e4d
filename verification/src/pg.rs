//! The Postgres command line tools: how they are called and what their outcomes mean.
use crate::bytes::{lossy, lossy_text};
use crate::number::{
    decimal, decimal_text, parse_decimal, push_signed, read_decimal, signed_decimal,
};
use crate::text::{chars_of, copy_str, literals, owned, strings, trim, trimmed};
use vstd::prelude::*;

verus! {

/// The data directory of the cluster.
pub const PGDATA: &'static str = "/var/lib/postgresql/18/main";

/// The directory of the write-ahead log; `pg_wal` in the data directory points to it.
pub const PG_WALDIR: &'static str = "/var/lib/postgresql/18/wal";

/// The directory of the server's socket.
pub const PG_SOCKET_DIR: &'static str = "/var/run/postgresql";

/// The port of the server itself.
pub const PG_PORT: u16 = 5433;

/// The database superuser.
pub const POSTGRES_USER: &'static str = "postgres";

/// The port of the pooler, which is the one that clients use.
pub const PGBOUNCER_PORT: u16 = 5432;

// ---------------------------------------------------------------------------
// Outcomes.
// ---------------------------------------------------------------------------
/// What can go wrong with a command.
#[derive(Debug)]
pub enum PgError {
    NonZeroExit { code: i32, stderr: String },
    Io(String),
    Signal,
    AlreadyPrimary,
}

/// What went wrong with a command, without its representation.
pub enum PgFault {
    NonZeroExit(i32, Seq<char>),
    Io(Seq<char>),
    Signal,
    AlreadyPrimary,
}

impl View for PgError {
    type V = PgFault;

    open spec fn view(&self) -> PgFault {
        match self {
            PgError::NonZeroExit { code, stderr } => PgFault::NonZeroExit(*code, stderr@),
            PgError::Io(m) => PgFault::Io(m@),
            PgError::Signal => PgFault::Signal,
            PgError::AlreadyPrimary => PgFault::AlreadyPrimary,
        }
    }
}

/// The words of a fault.
pub open spec fn pg_fault_text(f: PgFault) -> Seq<char> {
    match f {
        PgFault::NonZeroExit(code, stderr) => "pg command failed (exit "@ + signed_decimal(
            code as int,
        ) + "): "@ + stderr,
        PgFault::Io(m) => "pg command I/O error: "@ + m,
        PgFault::Signal => "pg command killed by signal"@,
        PgFault::AlreadyPrimary =>
            "PGDATA has PG_VERSION but no standby.signal — this is a primary data dir"@,
    }
}

impl PgError {
    /// The words of this error.
    pub fn to_string(&self) -> (r: String)
        ensures
            r@ == pg_fault_text(self@),
    {
        let mut out = String::new();
        match self {
            PgError::NonZeroExit { code, stderr } => {
                out.append("pg command failed (exit ");
                push_signed(&mut out, *code);
                out.append("): ");
                out.append(stderr.as_str());
            },
            PgError::Io(m) => {
                out.append("pg command I/O error: ");
                out.append(m.as_str());
            },
            PgError::Signal => {
                out.append("pg command killed by signal");
            },
            PgError::AlreadyPrimary => {
                out.append(
                    "PGDATA has PG_VERSION but no standby.signal — this is a primary data dir",
                );
            },
        }
        out
    }
}

/// What the end of a process means: success, death by a signal, or a failure with what it wrote.
pub open spec fn exit_meaning(success: bool, code: Option<i32>, stderr: Seq<u8>) -> Result<
    (),
    PgFault,
> {
    if success {
        Ok(())
    } else {
        match code {
            None => Err(PgFault::Signal),
            Some(c) => Err(PgFault::NonZeroExit(c, lossy(stderr))),
        }
    }
}

/// Judges the end of a process.
pub fn command_outcome(success: bool, code: Option<i32>, stderr: &[u8]) -> (r: Result<(), PgError>)
    ensures
        match r {
            Ok(_) => exit_meaning(success, code, stderr@) == Ok::<(), PgFault>(()),
            Err(e) => exit_meaning(success, code, stderr@) == Err::<(), PgFault>(e@),
        },
{
    if success {
        return Ok(());
    }
    match code {
        None => Err(PgError::Signal),
        Some(code) => Err(PgError::NonZeroExit { code, stderr: lossy_text(stderr) }),
    }
}

// ---------------------------------------------------------------------------
// Arguments.
// ---------------------------------------------------------------------------
/// The arguments with which a client tool reaches the maintenance database over the socket.
pub open spec fn psql_connection() -> Seq<Seq<char>> {
    seq![
        "-U"@,
        "postgres"@,
        "-h"@,
        "/var/run/postgresql"@,
        "-p"@,
        decimal(5433),
        "-d"@,
        "postgres"@,
    ]
}

fn psql_with(tail: &[&str]) -> (r: Vec<String>)
    ensures
        strings(r@) == psql_connection() + literals(tail@),
{
    let port: String = decimal_text(5433);
    let mut out: Vec<String> = owned(
        [
            "-U",
            "postgres",
            "-h",
            "/var/run/postgresql",
            "-p",
            port.as_str(),
            "-d",
            "postgres",
        ].as_slice(),
    );
    assert(strings(out@) == psql_connection());
    let ghost head = out@;
    let mut rest: Vec<String> = owned(tail);
    let ghost more = rest@;
    out.append(&mut rest);
    assert(out@ == head + more);
    assert(strings(head + more) == strings(head) + strings(more));
    out
}

/// The arguments of `psql` for one statement.
pub open spec fn psql_command(sql: Seq<char>) -> Seq<Seq<char>> {
    psql_connection() + seq!["-c"@, sql]
}

/// Arguments of `psql` for one statement.
pub fn psql_args(sql: &str) -> (r: Vec<String>)
    ensures
        strings(r@) == psql_command(sql@),
{
    let r = psql_with(["-c", sql].as_slice());
    assert(literals(["-c", sql]@) == seq!["-c"@, sql@]);
    r
}

/// The arguments of `psql` for a script on standard input.
pub open spec fn script_command() -> Seq<Seq<char>> {
    psql_connection() + seq!["-v"@, "ON_ERROR_STOP=1"@, "-f"@, "-"@]
}

/// Arguments of `psql` for a script on standard input that stops at the first error.
pub fn psql_script_args() -> (r: Vec<String>)
    ensures
        strings(r@) == script_command(),
{
    let r = psql_with(["-v", "ON_ERROR_STOP=1", "-f", "-"].as_slice());
    assert(literals(["-v", "ON_ERROR_STOP=1", "-f", "-"]@) == seq![
        "-v"@,
        "ON_ERROR_STOP=1"@,
        "-f"@,
        "-"@,
    ]);
    r
}

/// The query that counts the client backends at work, apart from the one that asks.
pub const ACTIVE_BACKENDS_SQL: &'static str = "SELECT count(*) FROM pg_stat_activity WHERE backend_type = 'client backend' AND pid <> pg_backend_pid() AND state <> 'idle'";

/// The arguments of `psql` for the count of the backends at work.
pub open spec fn count_command() -> Seq<Seq<char>> {
    psql_connection() + seq!["-tAc"@, ACTIVE_BACKENDS_SQL@]
}

/// Arguments of `psql` for the count of the backends at work.
pub fn active_backends_args() -> (r: Vec<String>)
    ensures
        strings(r@) == count_command(),
{
    let r = psql_with(["-tAc", ACTIVE_BACKENDS_SQL].as_slice());
    assert(literals(["-tAc", ACTIVE_BACKENDS_SQL]@) == seq!["-tAc"@, ACTIVE_BACKENDS_SQL@]);
    r
}

/// The arguments of `pg_isready`.
pub open spec fn isready_command() -> Seq<Seq<char>> {
    seq!["-h"@, PG_SOCKET_DIR@, "-p"@, decimal(PG_PORT as nat), "-q"@]
}

/// Arguments of `pg_isready`.
pub fn isready_args() -> (r: Vec<String>)
    ensures
        strings(r@) == isready_command(),
{
    let port: String = decimal_text(PG_PORT as u64);
    let items = ["-h", PG_SOCKET_DIR, "-p", port.as_str(), "-q"];
    let r = owned(items.as_slice());
    assert(literals(items@) == seq!["-h"@, PG_SOCKET_DIR@, "-p"@, port@, "-q"@]);
    r
}

/// The arguments of `pg_ctl` to have the server read its configuration again.
pub open spec fn reload_command() -> Seq<Seq<char>> {
    seq!["reload"@, "-D"@, PGDATA@]
}

/// Arguments of `pg_ctl` to have the server read its configuration again.
pub fn reload_args() -> (r: Vec<String>)
    ensures
        strings(r@) == reload_command(),
{
    let items = ["reload", "-D", PGDATA];
    let r = owned(items.as_slice());
    assert(literals(items@) == seq!["reload"@, "-D"@, PGDATA@]);
    r
}

/// The arguments of `pg_ctl` to promote a standby.
pub open spec fn promote_command() -> Seq<Seq<char>> {
    seq!["promote"@, "-w"@, "-t"@, "55"@, "-D"@, PGDATA@]
}

/// Arguments of `pg_ctl` to promote a standby and wait until it is writable.
pub fn promote_args() -> (r: Vec<String>)
    ensures
        strings(r@) == promote_command(),
{
    let items = ["promote", "-w", "-t", "55", "-D", PGDATA];
    let r = owned(items.as_slice());
    assert(literals(items@) == seq!["promote"@, "-w"@, "-t"@, "55"@, "-D"@, PGDATA@]);
    r
}

/// The arguments of `initdb`.
pub open spec fn initdb_command(pgdata: Seq<char>, waldir: Seq<char>, pwfile: Seq<char>) -> Seq<Seq<char>> {
    seq![
        "-D"@,
        pgdata,
        "--waldir"@,
        waldir,
        "--auth=scram-sha-256"@,
        "--encoding=UTF8"@,
        "--locale=en_US.UTF-8"@,
        "--pwfile="@ + pwfile,
    ]
}

/// Arguments of `initdb`. Every new cluster is made with these, wherever it is made.
pub fn initdb_args(pgdata: &str, waldir: &str, pwfile_path: &str) -> (r: Vec<String>)
    ensures
        strings(r@) == initdb_command(pgdata@, waldir@, pwfile_path@),
{
    let mut pwfile = copy_str("--pwfile=");
    pwfile.append(pwfile_path);
    let items = [
        "-D",
        pgdata,
        "--waldir",
        waldir,
        "--auth=scram-sha-256",
        "--encoding=UTF8",
        "--locale=en_US.UTF-8",
        pwfile.as_str(),
    ];
    let r = owned(items.as_slice());
    assert(literals(items@) == seq![
        "-D"@,
        pgdata@,
        "--waldir"@,
        waldir@,
        "--auth=scram-sha-256"@,
        "--encoding=UTF8"@,
        "--locale=en_US.UTF-8"@,
        pwfile@,
    ]);
    r
}

/// The arguments of `pg_basebackup`.
pub open spec fn basebackup_command(conninfo: Seq<char>) -> Seq<Seq<char>> {
    seq![
        "-d"@,
        conninfo,
        "--pgdata"@,
        PGDATA@,
        "--waldir"@,
        PG_WALDIR@,
        "--format=plain"@,
        "--wal-method=stream"@,
        "--checkpoint=fast"@,
        "--progress"@,
    ]
}

/// Arguments of `pg_basebackup`. The log goes to its own directory, as in a new cluster.
pub fn basebackup_args(conninfo: &str) -> (r: Vec<String>)
    ensures
        strings(r@) == basebackup_command(conninfo@),
{
    let items = [
        "-d",
        conninfo,
        "--pgdata",
        PGDATA,
        "--waldir",
        PG_WALDIR,
        "--format=plain",
        "--wal-method=stream",
        "--checkpoint=fast",
        "--progress",
    ];
    let r = owned(items.as_slice());
    assert(literals(items@) == seq![
        "-d"@,
        conninfo@,
        "--pgdata"@,
        PGDATA@,
        "--waldir"@,
        PG_WALDIR@,
        "--format=plain"@,
        "--wal-method=stream"@,
        "--checkpoint=fast"@,
        "--progress"@,
    ]);
    r
}

// ---------------------------------------------------------------------------
// Decisions.
// ---------------------------------------------------------------------------
/// Whether a replica's data directory has to be seeded from the primary.
pub open spec fn seeding(has_pg_version: bool, has_standby_signal: bool) -> Result<bool, PgFault> {
    if has_pg_version && !has_standby_signal {
        Err(PgFault::AlreadyPrimary)
    } else {
        Ok(!has_pg_version)
    }
}

/// Whether a replica's data directory has to be seeded from the primary: not if that was done
/// before, and a primary's data directory is never overwritten.
pub fn basebackup_needed(has_pg_version: bool, has_standby_signal: bool) -> (r: Result<
    bool,
    PgError,
>)
    ensures
        match r {
            Ok(run) => seeding(has_pg_version, has_standby_signal) == Ok::<bool, PgFault>(run),
            Err(e) => seeding(has_pg_version, has_standby_signal) == Err::<bool, PgFault>(e@),
        },
{
    if has_pg_version {
        if has_standby_signal {
            Ok(false)
        } else {
            Err(PgError::AlreadyPrimary)
        }
    } else {
        Ok(true)
    }
}

/// The number that the count of backends amounts to: none where the query failed or did not
/// print a number.
pub open spec fn backend_count(success: bool, stdout: Seq<u8>) -> Option<nat> {
    if !success {
        None
    } else {
        match parse_decimal(trim(lossy(stdout)), u32::MAX as nat) {
            Ok(n) => Some(n),
            Err(_) => None,
        }
    }
}

/// Reads the count of backends at work.
pub fn active_backends(success: bool, stdout: &[u8]) -> (r: Option<u32>)
    ensures
        match r {
            Some(n) => backend_count(success, stdout@) == Some(n as nat),
            None => backend_count(success, stdout@) is None,
        },
{
    if !success {
        return None;
    }
    let text: String = lossy_text(stdout);
    let cs: Vec<char> = chars_of(text.as_str());
    match read_decimal(trimmed(cs.as_slice()), u32::MAX as u64) {
        Ok(n) => Some(n as u32),
        Err(_) => None,
    }
}

/// Whether the wait for running queries is over.
pub open spec fn is_quiet(active: Option<u32>, elapsed_ns: u64, timeout_ns: u64) -> bool {
    active is None || active == Some(0u32) || elapsed_ns >= timeout_ns
}

/// Whether the wait for running queries is over: none runs, the server cannot be asked, or the
/// time is up.
pub fn quiesced(active: Option<u32>, elapsed_ns: u64, timeout_ns: u64) -> (r: bool)
    ensures
        r == is_quiet(active, elapsed_ns, timeout_ns),
{
    match active {
        None => true,
        Some(n) => n == 0 || elapsed_ns >= timeout_ns,
    }
}

/// The statement that sets a role's password, up to and with the tag that opens the password.
pub open spec fn password_head(role: Seq<char>) -> Seq<char> {
    "ALTER ROLE "@ + role + " WITH PASSWORD $_beyond_$"@
}

/// The statement that sets a role's password.
pub open spec fn password_statement(role: Seq<char>, pw: Seq<char>) -> Seq<char> {
    password_head(role) + pw + "$_beyond_$"@
}

/// The statement that sets a role's password, without a closing semicolon. The password stands
/// between dollar tags, so that quotes in it need no care; a password that holds the tag itself
/// is not supported.
pub fn alter_role_password_sql(role: &str, pw: &str) -> (r: String)
    ensures
        r@ == password_statement(role@, pw@),
{
    let mut out = String::new();
    out.append("ALTER ROLE ");
    out.append(role);
    out.append(" WITH PASSWORD $_beyond_$");
    out.append(pw);
    out.append("$_beyond_$");
    out
}

/// Whether the tag around a password stands at `i`.
pub open spec fn tag_at(s: Seq<char>, i: int) -> bool {
    0 <= i && i + 10 <= s.len() && s.subrange(i, i + 10) == "$_beyond_$"@
}

/// Whether a text that stands behind an opening tag is read as `value`: what comes before the
/// first tag in it.
pub open spec fn tagged_value(s: Seq<char>, value: Seq<char>) -> bool {
    &&& tag_at(s, value.len() as int)
    &&& s.take(value.len() as int) == value
    &&& forall|i: int| 0 <= i < value.len() ==> !tag_at(s, i)
}

/// A password is read back as it is, whatever quotes it holds, unless the tag occurs in it or it
/// ends with all of the tag but its last character.
pub proof fn law_password_reads_back(role: Seq<char>, pw: Seq<char>)
    requires
        forall|i: int| !tag_at(pw, i),
        pw.len() >= 9 ==> pw.skip(pw.len() - 9) != "$_beyond_"@,
    ensures
        tagged_value(
            password_statement(role, pw).skip(password_head(role).len() as int),
            pw,
        ),
{
    reveal_strlit("$_beyond_$");
    reveal_strlit("$_beyond_");
    let tag = "$_beyond_$"@;
    let s = (password_head(role) + pw + tag).skip(password_head(role).len() as int);
    assert(s =~= pw + tag);
    assert(s.take(pw.len() as int) =~= pw);
    assert(s.subrange(pw.len() as int, (pw.len() + 10) as int) =~= tag);
    assert forall|i: int| 0 <= i < pw.len() implies !tag_at(s, i) by {
        if tag_at(s, i) {
            let found = s.subrange(i, i + 10);
            if i + 10 <= pw.len() {
                assert(pw.subrange(i, i + 10) =~= found);
                assert(tag_at(pw, i));
            } else {
                let k = pw.len() - i;
                assert(found[k] == s[i + k]);
                assert(s[i + k] == tag[0]);
                assert(tag[k] == '$');
                assert(k == 9);
                assert(pw.skip(pw.len() - 9) =~= found.take(9));
                assert(found.take(9) =~= "$_beyond_"@);
            }
        }
    }
}

// ---------------------------------------------------------------------------
// Laws.
// ---------------------------------------------------------------------------
/// Whether an option with its value is among arguments.
pub open spec fn has_option(args: Seq<Seq<char>>, option: Seq<char>, value: Seq<char>) -> bool {
    exists|i: int|
        0 <= i < args.len() - 1 && #[trigger] args[i] == option && args[i + 1] == value
}

/// Every client tool reaches the server itself, not the pooler: over its socket, on its own port, as
/// the superuser, in the database of that name.
pub proof fn law_tools_reach_the_server(sql: Seq<char>)
    ensures
        has_option(psql_command(sql), "-h"@, "/var/run/postgresql"@),
        has_option(psql_command(sql), "-p"@, decimal(5433)),
        has_option(psql_command(sql), "-U"@, "postgres"@),
        has_option(psql_command(sql), "-d"@, "postgres"@),
        has_option(psql_command(sql), "-c"@, sql),
        has_option(script_command(), "-h"@, "/var/run/postgresql"@),
        has_option(script_command(), "-p"@, decimal(5433)),
        has_option(script_command(), "-U"@, "postgres"@),
        has_option(script_command(), "-v"@, "ON_ERROR_STOP=1"@),
        has_option(script_command(), "-f"@, "-"@),
        has_option(count_command(), "-p"@, decimal(5433)),
        has_option(
            count_command(),
            "-tAc"@,
            "SELECT count(*) FROM pg_stat_activity WHERE backend_type = 'client backend' AND pid <> pg_backend_pid() AND state <> 'idle'"@,
        ),
        has_option(isready_command(), "-h"@, "/var/run/postgresql"@),
        has_option(isready_command(), "-p"@, decimal(5433)),
{
    let q = psql_command(sql);
    assert(q[0] == "-U"@ && q[2] == "-h"@ && q[4] == "-p"@ && q[6] == "-d"@ && q[8] == "-c"@);
    let s = script_command();
    assert(s[0] == "-U"@ && s[2] == "-h"@ && s[4] == "-p"@ && s[8] == "-v"@ && s[10] == "-f"@);
    let c = count_command();
    assert(c[4] == "-p"@ && c[8] == "-tAc"@);
    let r = isready_command();
    assert(r[0] == "-h"@ && r[2] == "-p"@);
}

/// Reloading and promoting act on the cluster's data directory; promoting waits up to 55 seconds
/// until the server takes statements.
pub proof fn law_server_is_controlled()
    ensures
        reload_command()[0] == "reload"@,
        has_option(reload_command(), "-D"@, "/var/lib/postgresql/18/main"@),
        promote_command()[0] == "promote"@,
        promote_command().contains("-w"@),
        has_option(promote_command(), "-t"@, "55"@),
        has_option(promote_command(), "-D"@, "/var/lib/postgresql/18/main"@),
{
    let r = reload_command();
    assert(r[1] == "-D"@);
    let p = promote_command();
    assert(p[1] == "-w"@ && p[2] == "-t"@ && p[4] == "-D"@);
}

/// A new cluster stands where it is asked for, with its log in a directory of its own, wants
/// passwords from everyone, and takes the superuser's from the given file; its text is UTF-8.
pub proof fn law_cluster_is_made_as_asked(pgdata: Seq<char>, waldir: Seq<char>, pwfile: Seq<char>)
    ensures
        has_option(initdb_command(pgdata, waldir, pwfile), "-D"@, pgdata),
        has_option(initdb_command(pgdata, waldir, pwfile), "--waldir"@, waldir),
        initdb_command(pgdata, waldir, pwfile).contains("--auth=scram-sha-256"@),
        initdb_command(pgdata, waldir, pwfile).contains("--encoding=UTF8"@),
        initdb_command(pgdata, waldir, pwfile).contains("--locale=en_US.UTF-8"@),
        initdb_command(pgdata, waldir, pwfile).contains("--pwfile="@ + pwfile),
{
    let a = initdb_command(pgdata, waldir, pwfile);
    assert(a[0] == "-D"@ && a[2] == "--waldir"@ && a[4] == "--auth=scram-sha-256"@ && a[5]
        == "--encoding=UTF8"@ && a[6] == "--locale=en_US.UTF-8"@ && a[7] == "--pwfile="@ + pwfile);
}

/// A replica is copied from the given primary to the data directory, its log to the directory of the
/// log, which is streamed while the copy is made.
pub proof fn law_replica_is_copied(conninfo: Seq<char>)
    ensures
        has_option(basebackup_command(conninfo), "-d"@, conninfo),
        has_option(basebackup_command(conninfo), "--pgdata"@, "/var/lib/postgresql/18/main"@),
        has_option(basebackup_command(conninfo), "--waldir"@, "/var/lib/postgresql/18/wal"@),
        basebackup_command(conninfo).contains("--wal-method=stream"@),
        basebackup_command(conninfo).contains("--checkpoint=fast"@),
        basebackup_command(conninfo).contains("--format=plain"@),
{
    let a = basebackup_command(conninfo);
    assert(a[0] == "-d"@ && a[2] == "--pgdata"@ && a[4] == "--waldir"@ && a[6]
        == "--format=plain"@ && a[7] == "--wal-method=stream"@ && a[8] == "--checkpoint=fast"@);
}

/// A replica is copied exactly into an empty data directory; one that was copied before is left
/// alone, and a primary's is refused.
pub proof fn law_primary_is_never_overwritten(has_pg_version: bool, has_standby_signal: bool)
    ensures
        seeding(has_pg_version, has_standby_signal) == Ok::<bool, PgFault>(true) <==> !has_pg_version,
        has_pg_version && has_standby_signal ==> seeding(has_pg_version, has_standby_signal) == Ok::<
            bool,
            PgFault,
        >(false),
        has_pg_version && !has_standby_signal ==> seeding(has_pg_version, has_standby_signal)
            == Err::<bool, PgFault>(PgFault::AlreadyPrimary),
{
}

/// The wait for running queries lasts while there is one and time is left, and no longer.
pub proof fn law_wait_for_queries(n: u32, elapsed_ns: u64, timeout_ns: u64)
    ensures
        is_quiet(None, elapsed_ns, timeout_ns),
        is_quiet(Some(0u32), elapsed_ns, timeout_ns),
        elapsed_ns >= timeout_ns ==> is_quiet(Some(n), elapsed_ns, timeout_ns),
        n > 0 && elapsed_ns < timeout_ns ==> !is_quiet(Some(n), elapsed_ns, timeout_ns),
{
}

/// A process that succeeded is a success whatever else is told of it; one that failed tells its code
/// and what it wrote, and one without a code was killed.
pub proof fn law_ends_are_judged(code: Option<i32>, stderr: Seq<u8>, c: i32)
    ensures
        exit_meaning(true, code, stderr) is Ok,
        exit_meaning(false, None, stderr) == Err::<(), PgFault>(PgFault::Signal),
        exit_meaning(false, Some(c), stderr) == Err::<(), PgFault>(
            PgFault::NonZeroExit(c, lossy(stderr)),
        ),
{
}

/// The count of backends is told only by a query that succeeded.
pub proof fn law_failed_count_tells_nothing(stdout: Seq<u8>, n: nat)
    requires
        n <= u32::MAX,
        trim(lossy(stdout)) == decimal(n),
    ensures
        backend_count(false, stdout) is None,
        backend_count(true, stdout) == Some(n),
{
    crate::number::law_numeral_reads_back(n, 10, false, u32::MAX as nat);
}

/// The statement for a password sets the password of just this role.
pub proof fn law_password_is_set_for_the_role(role: Seq<char>, pw: Seq<char>)
    ensures
        password_statement(role, pw).take(password_head(role).len() as int) == password_head(
            role,
        ),
        password_head(role) == "ALTER ROLE "@ + role + " WITH PASSWORD "@ + "$_beyond_$"@,
{
    reveal_strlit(" WITH PASSWORD $_beyond_$");
    reveal_strlit(" WITH PASSWORD ");
    reveal_strlit("$_beyond_$");
    assert(password_statement(role, pw).take(password_head(role).len() as int) =~= password_head(
        role,
    ));
    assert(password_head(role) =~= "ALTER ROLE "@ + role + " WITH PASSWORD "@ + "$_beyond_$"@);
}

} // verus!
