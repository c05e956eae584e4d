//! Building a cluster in advance, to be copied when a machine first boots.
use crate::config::PG_HBA_PATH;
use crate::number::{decimal, decimal_text, push_decimal};
use crate::pg::{has_option, pg_fault_text, PgError, PG_PORT, PG_SOCKET_DIR};
use crate::supervisor::{optional_extensions, required_extensions};
use crate::text::{chars_of, copy_str, is_listed, listed, literals, owned, strings};
use vstd::prelude::*;

verus! {

/// Where the cluster is kept. The data volume does not hide this place.
pub const TEMPLATE_DIR: &'static str = "/usr/local/share/beyond-pg/pgdata-template";

/// The superuser's password while the cluster is built. Every machine sets its own.
pub const BUILD_PASSWORD: &'static str = "beyond-build-template";

/// How long the server may take to become ready, in seconds.
pub const READY_TIMEOUT_SECS: u64 = 60;

/// What can go wrong.
#[derive(Debug)]
pub enum TemplateError {
    Io(String),
    InitDb(String),
    /// The server was not ready within so many seconds.
    NotReady(u64),
    RequiredExtension { ext: String, source: PgError },
    Shutdown(String),
}

/// The words of an error.
pub open spec fn template_error_text(e: TemplateError) -> Seq<char> {
    match e {
        TemplateError::Io(m) => "I/O error: "@ + m@,
        TemplateError::InitDb(m) => "initdb failed: "@ + m@,
        TemplateError::NotReady(s) => "postgres did not become ready within "@ + decimal(s as nat)
            + "s"@,
        TemplateError::RequiredExtension { ext, source } => "required extension "@ + ext@
            + " failed: "@ + pg_fault_text(source@),
        TemplateError::Shutdown(m) => "postgres shutdown failed: "@ + m@,
    }
}

impl TemplateError {
    /// The words of this error.
    pub fn to_string(&self) -> (r: String)
        ensures
            r@ == template_error_text(*self),
    {
        let mut out = String::new();
        match self {
            TemplateError::Io(m) => {
                out.append("I/O error: ");
                out.append(m.as_str());
            },
            TemplateError::InitDb(m) => {
                out.append("initdb failed: ");
                out.append(m.as_str());
            },
            TemplateError::NotReady(s) => {
                out.append("postgres did not become ready within ");
                push_decimal(&mut out, *s);
                out.append("s");
            },
            TemplateError::RequiredExtension { ext, source } => {
                out.append("required extension ");
                out.append(ext.as_str());
                out.append(" failed: ");
                out.append(source.to_string().as_str());
            },
            TemplateError::Shutdown(m) => {
                out.append("postgres shutdown failed: ");
                out.append(m.as_str());
            },
        }
        out
    }
}

/// A step of the build.
#[derive(Clone, Copy, Debug, PartialEq, Eq, Structural)]
pub enum BuildStep {
    RemoveDir,
    CreateDir,
    ChownDir,
    EnsureSocketDir,
    InitDb,
    SpawnPostgres,
    /// Its failure is reported only after the server was stopped.
    CreateExtensions,
    Shutdown,
}

/// The steps of the build. What is there is removed first, since a new cluster wants an empty
/// place; and the server is stopped even if an extension failed.
pub open spec fn build_steps(exists: bool) -> Seq<BuildStep> {
    let start = if exists {
        seq![BuildStep::RemoveDir]
    } else {
        seq![]
    };
    start + seq![
        BuildStep::CreateDir,
        BuildStep::ChownDir,
        BuildStep::EnsureSocketDir,
        BuildStep::InitDb,
        BuildStep::ChownDir,
        BuildStep::SpawnPostgres,
        BuildStep::CreateExtensions,
        BuildStep::Shutdown,
        BuildStep::ChownDir,
    ]
}

/// Lists the steps of the build.
pub fn build(exists: bool) -> (r: Vec<BuildStep>)
    ensures
        r@ == build_steps(exists),
{
    let mut out: Vec<BuildStep> = Vec::new();
    if exists {
        out.push(BuildStep::RemoveDir);
    }
    out.push(BuildStep::CreateDir);
    out.push(BuildStep::ChownDir);
    out.push(BuildStep::EnsureSocketDir);
    out.push(BuildStep::InitDb);
    out.push(BuildStep::ChownDir);
    out.push(BuildStep::SpawnPostgres);
    out.push(BuildStep::CreateExtensions);
    out.push(BuildStep::Shutdown);
    out.push(BuildStep::ChownDir);
    assert(out@ =~= build_steps(exists));
    out
}

/// What the build came to.
pub open spec fn outcome_of(
    extensions: Result<(), TemplateError>,
    shutdown: Result<(), TemplateError>,
) -> Result<(), TemplateError> {
    if extensions is Err {
        extensions
    } else {
        shutdown
    }
}

/// What the build came to: the failure of the extensions counts before that of the stop.
pub fn build_outcome(
    extensions: Result<(), TemplateError>,
    shutdown: Result<(), TemplateError>,
) -> (r: Result<(), TemplateError>)
    ensures
        r == outcome_of(extensions, shutdown),
{
    match extensions {
        Err(e) => Err(e),
        Ok(_) => shutdown,
    }
}

/// A setting on the command line.
pub open spec fn setting(key: Seq<char>, value: Seq<char>) -> Seq<Seq<char>> {
    seq!["-c"@, key + "="@ + value]
}

/// The arguments of the server for the build.
pub open spec fn server_args(main: Seq<char>, preload: Seq<char>) -> Seq<Seq<char>> {
    seq!["-D"@, main] + setting("shared_preload_libraries"@, preload) + setting(
        "listen_addresses"@,
        ""@,
    ) + setting("ssl"@, "off"@) + setting("cron.database_name"@, "postgres"@) + setting(
        "logging_collector"@,
        "off"@,
    ) + setting("port"@, decimal(PG_PORT as nat)) + setting(
        "unix_socket_directories"@,
        PG_SOCKET_DIR@,
    ) + setting("hba_file"@, PG_HBA_PATH@)
}

fn push_setting(out: &mut Vec<String>, key: &str, value: &str)
    ensures
        strings(final(out)@) == strings(old(out)@) + setting(key@, value@),
{
    let mut item: String = copy_str(key);
    item.append("=");
    item.append(value);
    out.push(copy_str("-c"));
    out.push(item);
    assert(strings(out@) =~= strings(old(out)@) + setting(key@, value@));
}

/// Lists the arguments of the server for the build. It is reached over the socket only, without
/// certificates, and has the same preloaded libraries as it will have later.
pub fn build_postgres_args(main: &str, preload: &str) -> (r: Vec<String>)
    ensures
        strings(r@) == server_args(main@, preload@),
{
    let items = ["-D", main];
    let mut out: Vec<String> = owned(items.as_slice());
    assert(literals(items@) =~= seq!["-D"@, main@]);
    let port: String = decimal_text(PG_PORT as u64);
    push_setting(&mut out, "shared_preload_libraries", preload);
    push_setting(&mut out, "listen_addresses", "");
    push_setting(&mut out, "ssl", "off");
    push_setting(&mut out, "cron.database_name", "postgres");
    push_setting(&mut out, "logging_collector", "off");
    push_setting(&mut out, "port", port.as_str());
    push_setting(&mut out, "unix_socket_directories", PG_SOCKET_DIR);
    push_setting(&mut out, "hba_file", PG_HBA_PATH);
    out
}

/// An extension to create.
#[derive(Debug)]
pub struct ExtensionStep {
    pub ext: String,
    /// Its failure ends the build.
    pub required: bool,
}

/// Extensions without their representation.
pub open spec fn extension_steps(steps: Seq<ExtensionStep>) -> Seq<(Seq<char>, bool)> {
    steps.map_values(|s: ExtensionStep| (s.ext@, s.required))
}

/// Those of the extensions that are installed.
pub open spec fn installed_of(exts: Seq<Seq<char>>, installed: Seq<String>, required: bool) -> Seq<
    (Seq<char>, bool),
>
    decreases exts.len(),
{
    if exts.len() == 0 {
        seq![]
    } else {
        let before = installed_of(exts.drop_last(), installed, required);
        if listed(installed, exts.last()) {
            before.push((exts.last(), required))
        } else {
            before
        }
    }
}

fn push_installed(
    out: &mut Vec<ExtensionStep>,
    exts: &[&str],
    installed: &Vec<String>,
    required: bool,
)
    ensures
        extension_steps(final(out)@) == extension_steps(old(out)@) + installed_of(
            literals(exts@),
            installed@,
            required,
        ),
{
    let ghost base = extension_steps(out@);
    let ghost names = literals(exts@);
    assert(base + installed_of(names.take(0), installed@, required) =~= base);
    for i in 0..exts.len()
        invariant
            names == literals(exts@),
            extension_steps(out@) == base + installed_of(
                names.take(i as int),
                installed@,
                required,
            ),
    {
        let ghost before = extension_steps(out@);
        let ext: &str = exts[i];
        assert(names.take(i + 1).drop_last() =~= names.take(i as int));
        assert(names.take(i + 1).last() == ext@);
        let cs: Vec<char> = chars_of(ext);
        if is_listed(installed, cs.as_slice()) {
            out.push(ExtensionStep { ext: copy_str(ext), required });
            assert(extension_steps(out@) =~= before.push((ext@, required)));
        }
        assert(extension_steps(out@) =~= base + installed_of(
            names.take(i + 1),
            installed@,
            required,
        ));
    }
    assert(names.take(names.len() as int) =~= names);
}

/// Lists the extensions to create: the same as a machine creates, as far as they are installed.
pub fn create_extensions(installed: &Vec<String>) -> (r: Vec<ExtensionStep>)
    ensures
        extension_steps(r@) == installed_of(required_extensions(), installed@, true)
            + installed_of(optional_extensions(), installed@, false),
{
    let mut out: Vec<ExtensionStep> = Vec::new();
    let required = ["beyond_auth", "beyond_queue", "pg_cron"];
    let optional = [
        "pg_stat_statements",
        "auto_explain",
        "pg_trgm",
        "pgvector",
        "pgvectorscale",
        "pg_partman",
        "pg_jsonschema",
        "hypopg",
        "pg_repack",
        "postgis",
        "pg_search",
    ];
    assert(literals(required@) =~= required_extensions());
    assert(literals(optional@) =~= optional_extensions());
    push_installed(&mut out, required.as_slice(), installed, true);
    assert(extension_steps(out@) =~= installed_of(required_extensions(), installed@, true));
    push_installed(&mut out, optional.as_slice(), installed, false);
    out
}

/// Whether the creation of an extension ends the build.
pub open spec fn ends_build(required: bool, failed: bool) -> bool {
    required && failed
}

/// Judges the creation of an extension: a failure counts only if the extension is required.
pub fn extension_outcome(step: &ExtensionStep, outcome: Result<(), PgError>) -> (r: Result<
    (),
    TemplateError,
>)
    ensures
        match r {
            Ok(_) => !ends_build(step.required, outcome is Err),
            Err(e) => {
                &&& ends_build(step.required, outcome is Err)
                &&& e matches TemplateError::RequiredExtension { ext, source }
                &&& ext@ == step.ext@
                &&& outcome == Err::<(), PgError>(source)
            },
        },
{
    match outcome {
        Ok(_) => Ok(()),
        Err(source) => {
            if step.required {
                Err(
                    TemplateError::RequiredExtension { ext: copy_str(step.ext.as_str()), source },
                )
            } else {
                Ok(())
            }
        },
    }
}

/// Every required extension that is installed is created in the cluster that is built.
pub proof fn law_template_has_what_is_required(installed: Seq<String>, ext: Seq<char>)
    requires
        required_extensions().contains(ext),
        listed(installed, ext),
    ensures
        installed_of(required_extensions(), installed, true).contains((ext, true)),
{
    let i = choose|i: int| 0 <= i < required_extensions().len() && required_extensions()[i] == ext;
    lemma_installed_of(required_extensions(), installed, true, i);
}

proof fn lemma_installed_of(
    exts: Seq<Seq<char>>,
    installed: Seq<String>,
    required: bool,
    i: int,
)
    requires
        0 <= i < exts.len(),
        listed(installed, exts[i]),
    ensures
        installed_of(exts, installed, required).contains((exts[i], required)),
    decreases exts.len(),
{
    let all = installed_of(exts, installed, required);
    let before = installed_of(exts.drop_last(), installed, required);
    if i < exts.len() - 1 {
        lemma_installed_of(exts.drop_last(), installed, required, i);
        let k = choose|k: int| 0 <= k < before.len() && before[k] == (exts[i], required);
        assert(all[k] == (exts[i], required));
    } else {
        assert(all[all.len() - 1] == (exts[i], required));
    }
}

/// The place of a cluster is cleared exactly if something is there; the cluster is made before the
/// server is started on it, the extensions are created while it runs, and it is stopped again; in
/// the end all belongs to the server's user.
pub proof fn law_order_of_build(exists: bool)
    ensures
        ({
            let s = build_steps(exists);
            let n = s.len() as int;
            &&& s.contains(BuildStep::RemoveDir) <==> exists
            &&& exists ==> s[0] == BuildStep::RemoveDir
            &&& s[n - 9] == BuildStep::CreateDir && s[n - 8] == BuildStep::ChownDir
            &&& s[n - 7] == BuildStep::EnsureSocketDir && s[n - 6] == BuildStep::InitDb
            &&& s[n - 5] == BuildStep::ChownDir && s[n - 4] == BuildStep::SpawnPostgres
            &&& s[n - 3] == BuildStep::CreateExtensions && s[n - 2] == BuildStep::Shutdown
            &&& s[n - 1] == BuildStep::ChownDir
        }),
{
    let s = build_steps(exists);
    if exists {
        assert(s[0] == BuildStep::RemoveDir);
    }
}

/// A build succeeds exactly if the extensions and the stop did; of two failures that of the
/// extensions is told. Only a required extension that failed ends it.
pub proof fn law_build_succeeds(
    extensions: Result<(), TemplateError>,
    shutdown: Result<(), TemplateError>,
    required: bool,
    failed: bool,
)
    ensures
        outcome_of(extensions, shutdown) is Ok <==> extensions is Ok && shutdown is Ok,
        extensions is Err ==> outcome_of(extensions, shutdown) == extensions,
        ends_build(required, failed) <==> required && failed,
{
}

/// While the cluster is built the server is reached over its socket only, without certificates, on
/// its own port, with the libraries that it will have later.
pub proof fn law_build_server_is_private(main: Seq<char>, preload: Seq<char>)
    ensures
        ({
            let a = server_args(main, preload);
            &&& has_option(a, "-D"@, main)
            &&& has_option(a, "-c"@, "shared_preload_libraries"@ + "="@ + preload)
            &&& has_option(a, "-c"@, "listen_addresses"@ + "="@ + ""@)
            &&& has_option(a, "-c"@, "ssl"@ + "="@ + "off"@)
            &&& has_option(a, "-c"@, "port"@ + "="@ + decimal(5433))
            &&& has_option(a, "-c"@, "unix_socket_directories"@ + "="@ + "/var/run/postgresql"@)
            &&& has_option(
                a,
                "-c"@,
                "hba_file"@ + "="@ + "/etc/postgresql/18/main/pg_hba.conf"@,
            )
        }),
{
    let a = server_args(main, preload);
    assert(a[0] == "-D"@ && a[2] == "-c"@ && a[4] == "-c"@ && a[6] == "-c"@ && a[12] == "-c"@
        && a[14] == "-c"@ && a[16] == "-c"@);
}

} // verus!
