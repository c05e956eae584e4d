//! The configuration that the platform hands to the machine.
//!
//! The platform's document holds a string for each setting. Which settings there are, and what a
//! missing one means, is said here.
use crate::archive::{json_string_at, read_json_string};
use crate::init::{indent_json, indented_json};
use crate::number::{decimal, parse_decimal, read_decimal};
use crate::text::{chars_of, copy_str, same_str};
use vstd::prelude::*;

verus! {

/// Where the metadata service's answer is kept.
pub const MMDS_PATH: &'static str = "/run/mmds/metadata.json";

/// How often the file is read before giving up.
pub const MAX_ATTEMPTS: u32 = 5;

/// The role of the cluster.
#[derive(Clone, Copy, Debug, PartialEq, Eq, Structural)]
pub enum PgTier {
    Single,
    Primary,
    Replica,
}

/// The configuration.
#[derive(Debug)]
pub struct MmdsConfig {
    pub pg_tier: PgTier,
    /// The volume is thrown away.
    pub ephemeral: bool,
    pub postgres_password: String,
    pub postgres_database: String,
    /// The sink that the log is streamed to, or restored from.
    pub wal_sink: Option<String>,
    pub cdc_enabled: bool,
    /// The point in time to recover to.
    pub recovery_target_time: Option<String>,
    /// How a replica reaches its primary.
    pub primary_conninfo: Option<String>,
    pub replication_password: Option<String>,
    pub ram_bytes: u64,
    pub vcpus: u32,
}

/// The configuration, without its representation.
pub struct ConfigText {
    pub pg_tier: PgTier,
    pub ephemeral: bool,
    pub postgres_password: Seq<char>,
    pub postgres_database: Seq<char>,
    pub wal_sink: Option<Seq<char>>,
    pub cdc_enabled: bool,
    pub recovery_target_time: Option<Seq<char>>,
    pub primary_conninfo: Option<Seq<char>>,
    pub replication_password: Option<Seq<char>>,
    pub ram_bytes: u64,
    pub vcpus: u32,
}

impl View for MmdsConfig {
    type V = ConfigText;

    open spec fn view(&self) -> ConfigText {
        ConfigText {
            pg_tier: self.pg_tier,
            ephemeral: self.ephemeral,
            postgres_password: self.postgres_password@,
            postgres_database: self.postgres_database@,
            wal_sink: optional(self.wal_sink),
            cdc_enabled: self.cdc_enabled,
            recovery_target_time: optional(self.recovery_target_time),
            primary_conninfo: optional(self.primary_conninfo),
            replication_password: optional(self.replication_password),
            ram_bytes: self.ram_bytes,
            vcpus: self.vcpus,
        }
    }
}

/// What a configuration lacks.
pub open spec fn config_complaint(cfg: ConfigText) -> Option<Seq<char>> {
    if cfg.pg_tier == PgTier::Replica && cfg.primary_conninfo is None {
        Some("a replica needs BEYOND_PG_PRIMARY_CONNINFO"@)
    } else if cfg.recovery_target_time is Some && cfg.wal_sink is None {
        Some("recovery to a point in time needs BEYOND_PG_WAL_SINK"@)
    } else if cfg.pg_tier == PgTier::Replica && cfg.ephemeral {
        Some("a replica cannot run on an ephemeral volume"@)
    } else {
        None
    }
}

impl MmdsConfig {
    /// A replica knows its primary and keeps what it receives, and recovery to a point in time has
    /// a sink to restore from.
    pub open spec fn wf(&self) -> bool {
        &&& self.pg_tier == PgTier::Replica ==> self.primary_conninfo is Some && !self.ephemeral
        &&& self.recovery_target_time is Some ==> self.wal_sink is Some
    }

    /// Refuses a configuration that cannot work.
    pub fn check(&self) -> (r: Result<(), MmdsError>)
        ensures
            r is Ok <==> self.wf(),
            match r {
                Ok(()) => config_complaint(self@) is None,
                Err(MmdsError::Invalid(m)) => config_complaint(self@) == Some(m@),
                Err(MmdsError::Unavailable(_)) => false,
            },
    {
        let complaint: &str = if self.pg_tier == PgTier::Replica && self.primary_conninfo.is_none() {
            "a replica needs BEYOND_PG_PRIMARY_CONNINFO"
        } else if self.recovery_target_time.is_some() && self.wal_sink.is_none() {
            "recovery to a point in time needs BEYOND_PG_WAL_SINK"
        } else if self.pg_tier == PgTier::Replica && self.ephemeral {
            "a replica cannot run on an ephemeral volume"
        } else {
            return Ok(());
        };
        Err(MmdsError::Invalid(copy_str(complaint)))
    }
}

/// An optional text.
pub open spec fn optional(s: Option<String>) -> Option<Seq<char>> {
    match s {
        Some(t) => Some(t@),
        None => None,
    }
}

/// What can go wrong with the configuration.
#[derive(Debug)]
pub enum MmdsError {
    Unavailable(String),
    Invalid(String),
}

/// What can go wrong with the configuration, without its representation.
pub enum MmdsFault {
    Unavailable(Seq<char>),
    Invalid(Seq<char>),
}

impl View for MmdsError {
    type V = MmdsFault;

    open spec fn view(&self) -> MmdsFault {
        match *self {
            MmdsError::Unavailable(m) => MmdsFault::Unavailable(m@),
            MmdsError::Invalid(m) => MmdsFault::Invalid(m@),
        }
    }
}

/// The words of an error.
pub open spec fn mmds_error_text(e: MmdsError) -> Seq<char> {
    match e {
        MmdsError::Unavailable(m) => "MMDS unavailable: "@ + m@,
        MmdsError::Invalid(m) => "MMDS invalid: "@ + m@,
    }
}

impl MmdsError {
    /// The words of this error.
    pub fn to_string(&self) -> (r: String)
        ensures
            r@ == mmds_error_text(*self),
    {
        let mut out = String::new();
        match self {
            MmdsError::Unavailable(m) => {
                out.append("MMDS unavailable: ");
                out.append(m.as_str());
            },
            MmdsError::Invalid(m) => {
                out.append("MMDS invalid: ");
                out.append(m.as_str());
            },
        }
        out
    }
}

// ---------------------------------------------------------------------------
// Settings.
// ---------------------------------------------------------------------------
/// Where the document holds the settings.
pub const SETTINGS_POINTER: &'static str = "/latest/meta-data/";

/// The settings as the document holds them; an empty one counts as missing.
#[derive(Debug)]
pub struct Settings {
    pub tier: Option<String>,
    pub ephemeral: Option<String>,
    pub password: Option<String>,
    pub database: Option<String>,
    pub wal_sink: Option<String>,
    pub archive_target: Option<String>,
    pub cdc_enabled: Option<String>,
    pub recovery_target_time: Option<String>,
    pub pitr_target: Option<String>,
    pub primary_conninfo: Option<String>,
    pub replication_password: Option<String>,
    pub memory_mb: Option<String>,
}

/// The settings, without their representation.
pub struct SettingTexts {
    pub tier: Option<Seq<char>>,
    pub ephemeral: Option<Seq<char>>,
    pub password: Option<Seq<char>>,
    pub database: Option<Seq<char>>,
    pub wal_sink: Option<Seq<char>>,
    pub archive_target: Option<Seq<char>>,
    pub cdc_enabled: Option<Seq<char>>,
    pub recovery_target_time: Option<Seq<char>>,
    pub pitr_target: Option<Seq<char>>,
    pub primary_conninfo: Option<Seq<char>>,
    pub replication_password: Option<Seq<char>>,
    pub memory_mb: Option<Seq<char>>,
}

impl View for Settings {
    type V = SettingTexts;

    open spec fn view(&self) -> SettingTexts {
        SettingTexts {
            tier: optional(self.tier),
            ephemeral: optional(self.ephemeral),
            password: optional(self.password),
            database: optional(self.database),
            wal_sink: optional(self.wal_sink),
            archive_target: optional(self.archive_target),
            cdc_enabled: optional(self.cdc_enabled),
            recovery_target_time: optional(self.recovery_target_time),
            pitr_target: optional(self.pitr_target),
            primary_conninfo: optional(self.primary_conninfo),
            replication_password: optional(self.replication_password),
            memory_mb: optional(self.memory_mb),
        }
    }
}

/// A text, unless it is empty.
pub open spec fn filled(s: Option<Seq<char>>) -> Option<Seq<char>> {
    match s {
        Some(t) => if t.len() > 0 {
            Some(t)
        } else {
            None
        },
        None => None,
    }
}

/// The setting of this name in a document.
pub open spec fn setting(metadata: Seq<char>, key: Seq<char>) -> Option<Seq<char>> {
    filled(json_string_at(metadata, SETTINGS_POINTER@ + key))
}

/// The settings in a document.
pub open spec fn settings_in(metadata: Seq<char>) -> SettingTexts {
    SettingTexts {
        tier: setting(metadata, "BEYOND_PG_TIER"@),
        ephemeral: setting(metadata, "BEYOND_VOLUME_EPHEMERAL"@),
        password: setting(metadata, "POSTGRES_PASSWORD"@),
        database: setting(metadata, "POSTGRES_DATABASE"@),
        wal_sink: setting(metadata, "BEYOND_PG_WAL_SINK"@),
        archive_target: setting(metadata, "BEYOND_PG_ARCHIVE_TARGET"@),
        cdc_enabled: setting(metadata, "BEYOND_PG_CDC_ENABLED"@),
        recovery_target_time: setting(metadata, "BEYOND_PG_RECOVERY_TARGET_TIME"@),
        pitr_target: setting(metadata, "BEYOND_PG_PITR_TARGET"@),
        primary_conninfo: setting(metadata, "BEYOND_PG_PRIMARY_CONNINFO"@),
        replication_password: setting(metadata, "BEYOND_PG_REPLICATION_PASSWORD"@),
        memory_mb: setting(metadata, "BEYOND_PG_MEMORY_MB"@),
    }
}

fn find_setting(metadata: &str, key: &str) -> (r: Option<String>)
    ensures
        optional(r) == setting(metadata@, key@),
{
    let mut pointer: String = copy_str(SETTINGS_POINTER);
    pointer.append(key);
    match read_json_string(metadata, pointer.as_str()) {
        Some(t) => {
            if t.as_str().is_empty() {
                None
            } else {
                Some(t)
            }
        },
        None => None,
    }
}

/// Picks the settings out of a document.
pub fn find_settings(metadata: &str) -> (r: Settings)
    ensures
        r@ == settings_in(metadata@),
{
    Settings {
        tier: find_setting(metadata, "BEYOND_PG_TIER"),
        ephemeral: find_setting(metadata, "BEYOND_VOLUME_EPHEMERAL"),
        password: find_setting(metadata, "POSTGRES_PASSWORD"),
        database: find_setting(metadata, "POSTGRES_DATABASE"),
        wal_sink: find_setting(metadata, "BEYOND_PG_WAL_SINK"),
        archive_target: find_setting(metadata, "BEYOND_PG_ARCHIVE_TARGET"),
        cdc_enabled: find_setting(metadata, "BEYOND_PG_CDC_ENABLED"),
        recovery_target_time: find_setting(metadata, "BEYOND_PG_RECOVERY_TARGET_TIME"),
        pitr_target: find_setting(metadata, "BEYOND_PG_PITR_TARGET"),
        primary_conninfo: find_setting(metadata, "BEYOND_PG_PRIMARY_CONNINFO"),
        replication_password: find_setting(metadata, "BEYOND_PG_REPLICATION_PASSWORD"),
        memory_mb: find_setting(metadata, "BEYOND_PG_MEMORY_MB"),
    }
}

/// Whether a setting is switched on.
pub open spec fn switched_on(s: Option<Seq<char>>) -> bool {
    s == Some("1"@) || s == Some("true"@)
}

/// The role that a setting names: a primary where it is missing.
pub open spec fn tier_of(s: Option<Seq<char>>) -> Option<PgTier> {
    match s {
        None => Some(PgTier::Primary),
        Some(t) => if t == "primary"@ {
            Some(PgTier::Primary)
        } else if t == "single"@ {
            Some(PgTier::Single)
        } else if t == "replica"@ {
            Some(PgTier::Replica)
        } else {
            None
        },
    }
}

/// The memory in bytes: that of the setting, in megabytes, or else that of the machine.
pub open spec fn memory_of(s: Option<Seq<char>>, machine_ram: Option<u64>) -> Result<
    u64,
    MmdsFault,
> {
    match s {
        None => match machine_ram {
            Some(n) => Ok(n),
            None => Err(MmdsFault::Unavailable("cannot read the machine's memory"@)),
        },
        Some(t) => match parse_decimal(t, u64::MAX as nat) {
            Ok(n) => if n * 1_048_576 <= u64::MAX {
                Ok((n * 1_048_576) as u64)
            } else {
                Err(MmdsFault::Invalid("bad BEYOND_PG_MEMORY_MB: "@ + t))
            },
            Err(_) => Err(MmdsFault::Invalid("bad BEYOND_PG_MEMORY_MB: "@ + t)),
        },
    }
}

/// The first of two settings that is there.
pub open spec fn either(a: Option<Seq<char>>, b: Option<Seq<char>>) -> Option<Seq<char>> {
    match a {
        Some(_) => a,
        None => b,
    }
}

/// The point in time to recover to; it has two names.
pub open spec fn recovery_time(s: SettingTexts) -> Option<Seq<char>> {
    either(s.recovery_target_time, s.pitr_target)
}

/// The configuration that settings make, before it is checked.
pub open spec fn config_text(s: SettingTexts, tier: PgTier, ram_bytes: u64, vcpus: u32) -> ConfigText {
    ConfigText {
        pg_tier: tier,
        ephemeral: switched_on(s.ephemeral),
        postgres_password: match s.password {
            Some(p) => p,
            None => seq![],
        },
        postgres_database: match s.database {
            Some(d) => d,
            None => "postgres"@,
        },
        wal_sink: if recovery_time(s) is Some {
            either(s.wal_sink, s.archive_target)
        } else {
            s.wal_sink
        },
        cdc_enabled: switched_on(s.cdc_enabled),
        recovery_target_time: recovery_time(s),
        primary_conninfo: s.primary_conninfo,
        replication_password: s.replication_password,
        ram_bytes,
        vcpus,
    }
}

/// The configuration that settings make, or what is wrong with them.
pub open spec fn settled(s: SettingTexts, machine_ram: Option<u64>, vcpus: u32) -> Result<
    ConfigText,
    MmdsFault,
> {
    match tier_of(s.tier) {
        None => Err(MmdsFault::Invalid("unknown BEYOND_PG_TIER: "@ + s.tier->0)),
        Some(tier) => match memory_of(s.memory_mb, machine_ram) {
            Err(e) => Err(e),
            Ok(ram) => if s.password is None {
                Err(MmdsFault::Invalid("POSTGRES_PASSWORD is missing"@))
            } else {
                match config_complaint(config_text(s, tier, ram, vcpus)) {
                    Some(m) => Err(MmdsFault::Invalid(m)),
                    None => Ok(config_text(s, tier, ram, vcpus)),
                }
            },
        },
    }
}

fn invalid(m: &str, value: &str) -> (r: MmdsError)
    ensures
        r@ == MmdsFault::Invalid(m@ + value@),
{
    let mut out: String = copy_str(m);
    out.append(value);
    MmdsError::Invalid(out)
}

fn is_on(s: &Option<String>) -> (r: bool)
    ensures
        r == switched_on(optional(*s)),
{
    match s {
        Some(t) => same_str(t.as_str(), "1") || same_str(t.as_str(), "true"),
        None => false,
    }
}

fn read_memory(s: &Option<String>, machine_ram: Option<u64>) -> (r: Result<u64, MmdsError>)
    ensures
        match r {
            Ok(n) => memory_of(optional(*s), machine_ram) == Ok::<u64, MmdsFault>(n),
            Err(e) => memory_of(optional(*s), machine_ram) == Err::<u64, MmdsFault>(e@),
        },
{
    match s {
        None => match machine_ram {
            Some(n) => Ok(n),
            None => Err(MmdsError::Unavailable(copy_str("cannot read the machine's memory"))),
        },
        Some(t) => {
            let cs: Vec<char> = chars_of(t.as_str());
            match read_decimal(cs.as_slice(), u64::MAX) {
                Ok(n) => {
                    if n <= u64::MAX / 1_048_576 {
                        Ok(n * 1_048_576)
                    } else {
                        Err(invalid("bad BEYOND_PG_MEMORY_MB: ", t.as_str()))
                    }
                },
                Err(_) => Err(invalid("bad BEYOND_PG_MEMORY_MB: ", t.as_str())),
            }
        },
    }
}

/// Makes the configuration of settings. `machine_ram` is the machine's memory in bytes, where it is
/// known. Recovery to a point in time restores from the sink, or from the archive where there is no
/// sink.
pub fn config_of(s: Settings, machine_ram: Option<u64>, vcpus: u32) -> (r: Result<
    MmdsConfig,
    MmdsError,
>)
    ensures
        match r {
            Ok(cfg) => settled(s@, machine_ram, vcpus) == Ok::<ConfigText, MmdsFault>(cfg@)
                && cfg.wf(),
            Err(e) => settled(s@, machine_ram, vcpus) == Err::<ConfigText, MmdsFault>(e@),
        },
{
    let ghost all = s@;
    let pg_tier: PgTier = match &s.tier {
        None => PgTier::Primary,
        Some(t) => {
            if same_str(t.as_str(), "primary") {
                PgTier::Primary
            } else if same_str(t.as_str(), "single") {
                PgTier::Single
            } else if same_str(t.as_str(), "replica") {
                PgTier::Replica
            } else {
                return Err(invalid("unknown BEYOND_PG_TIER: ", t.as_str()));
            }
        },
    };
    let ram_bytes: u64 = match read_memory(&s.memory_mb, machine_ram) {
        Ok(n) => n,
        Err(e) => return Err(e),
    };
    let postgres_password: String = match s.password {
        Some(p) => p,
        None => return Err(MmdsError::Invalid(copy_str("POSTGRES_PASSWORD is missing"))),
    };
    let recovery_target_time: Option<String> = match s.recovery_target_time {
        Some(t) => Some(t),
        None => s.pitr_target,
    };
    let wal_sink: Option<String> = match s.wal_sink {
        Some(u) => Some(u),
        None => {
            if recovery_target_time.is_some() {
                s.archive_target
            } else {
                None
            }
        },
    };
    let cfg = MmdsConfig {
        pg_tier,
        ephemeral: is_on(&s.ephemeral),
        postgres_password,
        postgres_database: match s.database {
            Some(d) => d,
            None => copy_str("postgres"),
        },
        wal_sink,
        cdc_enabled: is_on(&s.cdc_enabled),
        recovery_target_time,
        primary_conninfo: s.primary_conninfo,
        replication_password: s.replication_password,
        ram_bytes,
        vcpus,
    };
    assert(cfg@ == config_text(all, pg_tier, ram_bytes, vcpus));
    match cfg.check() {
        Ok(()) => Ok(cfg),
        Err(e) => Err(e),
    }
}

/// Makes the configuration of the settings in a document.
pub fn config_from(metadata: &str, machine_ram: Option<u64>, vcpus: u32) -> (r: Result<
    MmdsConfig,
    MmdsError,
>)
    ensures
        match r {
            Ok(cfg) => settled(settings_in(metadata@), machine_ram, vcpus) == Ok::<
                ConfigText,
                MmdsFault,
            >(cfg@) && cfg.wf(),
            Err(e) => settled(settings_in(metadata@), machine_ram, vcpus) == Err::<
                ConfigText,
                MmdsFault,
            >(e@),
        },
{
    config_of(find_settings(metadata), machine_ram, vcpus)
}

/// A replica on a volume that is thrown away is refused, whatever else is set, and so are a replica
/// without a primary and recovery with nothing to restore from.
pub proof fn law_unworkable_settings_are_refused(
    s: SettingTexts,
    machine_ram: Option<u64>,
    vcpus: u32,
)
    ensures
        tier_of(s.tier) == Some(PgTier::Replica) && switched_on(s.ephemeral) ==> settled(
            s,
            machine_ram,
            vcpus,
        ) is Err,
        tier_of(s.tier) == Some(PgTier::Replica) && s.primary_conninfo is None ==> settled(
            s,
            machine_ram,
            vcpus,
        ) is Err,
        recovery_time(s) is Some && s.wal_sink is None && s.archive_target is None ==> settled(
            s,
            machine_ram,
            vcpus,
        ) is Err,
{
}

// ---------------------------------------------------------------------------
// Loading.
// ---------------------------------------------------------------------------
/// Why a try to load the file failed.
#[derive(Debug)]
pub enum LoadFailure {
    /// It could not be read.
    Read(String),
    /// It holds no document.
    Parse(String),
}

/// The words of a failure.
pub open spec fn load_failure_text(f: LoadFailure) -> Seq<char> {
    match f {
        LoadFailure::Read(e) => "read error: "@ + e@,
        LoadFailure::Parse(e) => "JSON parse error: "@ + e@,
    }
}

/// Decides after the failure of a try, the first of which has number one: none to try again, or
/// the error after the last try, which tells the last failure.
pub fn after_failed_load(attempt: u32, failure: &LoadFailure) -> (r: Option<MmdsError>)
    ensures
        match r {
            None => attempt < MAX_ATTEMPTS,
            Some(MmdsError::Unavailable(m)) => attempt >= MAX_ATTEMPTS && m@ == load_failure_text(
                *failure,
            ),
            Some(MmdsError::Invalid(_)) => false,
        },
{
    if attempt < MAX_ATTEMPTS {
        return None;
    }
    let mut m = String::new();
    match failure {
        LoadFailure::Read(e) => {
            m.append("read error: ");
            m.append(e.as_str());
        },
        LoadFailure::Parse(e) => {
            m.append("JSON parse error: ");
            m.append(e.as_str());
        },
    }
    Some(MmdsError::Unavailable(m))
}

/// What to do after a try to load the file.
#[derive(Debug)]
pub enum LoadStep {
    /// The file holds this document.
    Loaded(String),
    Again,
    Fail(MmdsError),
}

/// What to do after a try to load the file, without its representation.
pub enum LoadEffect {
    Loaded(Seq<char>),
    Again,
    Fail(MmdsFault),
}

impl View for LoadStep {
    type V = LoadEffect;

    open spec fn view(&self) -> LoadEffect {
        match *self {
            LoadStep::Loaded(t) => LoadEffect::Loaded(t@),
            LoadStep::Again => LoadEffect::Again,
            LoadStep::Fail(e) => LoadEffect::Fail(e@),
        }
    }
}

/// The words about a try that failed: the file could not be read, or holds no document.
pub open spec fn load_complaint(
    content: Result<Seq<char>, Seq<char>>,
    document: Result<Seq<char>, Seq<char>>,
) -> Option<Seq<char>> {
    match content {
        Err(e) => Some("read error: "@ + e),
        Ok(_) => match document {
            Err(e) => Some("JSON parse error: "@ + e),
            Ok(_) => None,
        },
    }
}

/// What to do after a try with this content of the file, or the words of the failure to read it;
/// `document` is what the parser makes of the content.
pub open spec fn load_effect(
    attempt: u32,
    content: Result<Seq<char>, Seq<char>>,
    document: Result<Seq<char>, Seq<char>>,
) -> LoadEffect {
    match load_complaint(content, document) {
        None => LoadEffect::Loaded(content->Ok_0),
        Some(m) => if attempt < MAX_ATTEMPTS {
            LoadEffect::Again
        } else {
            LoadEffect::Fail(MmdsFault::Unavailable(m))
        },
    }
}

/// A content of the file, without its representation.
pub open spec fn content_text(content: Result<String, String>) -> Result<Seq<char>, Seq<char>> {
    match content {
        Ok(t) => Ok(t@),
        Err(e) => Err(e@),
    }
}

/// Decides after a try to load the file, the first of which has number one. A file that cannot be
/// read or holds no document may not be complete yet, so it is tried again.
pub fn load_step(attempt: u32, content: Result<String, String>) -> (r: LoadStep)
    ensures
        r@ == load_effect(
            attempt,
            content_text(content),
            match content {
                Ok(t) => indented_json(t@),
                Err(e) => Err(e@),
            },
        ),
{
    let failure: LoadFailure = match content {
        Err(e) => LoadFailure::Read(e),
        Ok(t) => match indent_json(t.as_str()) {
            Ok(_) => return LoadStep::Loaded(t),
            Err(e) => LoadFailure::Parse(e),
        },
    };
    match after_failed_load(attempt, &failure) {
        None => LoadStep::Again,
        Some(e) => LoadStep::Fail(e),
    }
}

// ---------------------------------------------------------------------------
// Laws.
// ---------------------------------------------------------------------------
/// Each setting is read from its own place in the document, and an empty one counts as missing.
pub proof fn law_settings_have_their_places(metadata: Seq<char>)
    ensures
        ({
            let s = settings_in(metadata);
            let at = |key: Seq<char>| json_string_at(metadata, "/latest/meta-data/"@ + key);
            &&& s.tier == filled(at("BEYOND_PG_TIER"@))
            &&& s.ephemeral == filled(at("BEYOND_VOLUME_EPHEMERAL"@))
            &&& s.password == filled(at("POSTGRES_PASSWORD"@))
            &&& s.database == filled(at("POSTGRES_DATABASE"@))
            &&& s.wal_sink == filled(at("BEYOND_PG_WAL_SINK"@))
            &&& s.archive_target == filled(at("BEYOND_PG_ARCHIVE_TARGET"@))
            &&& s.cdc_enabled == filled(at("BEYOND_PG_CDC_ENABLED"@))
            &&& s.recovery_target_time == filled(at("BEYOND_PG_RECOVERY_TARGET_TIME"@))
            &&& s.pitr_target == filled(at("BEYOND_PG_PITR_TARGET"@))
            &&& s.primary_conninfo == filled(at("BEYOND_PG_PRIMARY_CONNINFO"@))
            &&& s.replication_password == filled(at("BEYOND_PG_REPLICATION_PASSWORD"@))
            &&& s.memory_mb == filled(at("BEYOND_PG_MEMORY_MB"@))
        }),
        filled(Some(Seq::<char>::empty())) is None,
        filled(None) is None,
        metadata.len() > 0 ==> filled(Some(metadata)) == Some(metadata),
{
}

/// What settings come to, where they are accepted: a node is a primary unless they say otherwise;
/// flags are on for `1` and `true` only; the password and the names are taken as they are, the
/// database being `postgres` where none is named; a given memory counts in megabytes and replaces
/// the machine's; recovery goes to the time that is named under either key, from the sink or else
/// from the archive; and an archive alone is no sink.
pub proof fn law_settings_take_effect(
    s: SettingTexts,
    machine_ram: Option<u64>,
    vcpus: u32,
    cfg: ConfigText,
    mb: nat,
)
    requires
        settled(s, machine_ram, vcpus) == Ok::<ConfigText, MmdsFault>(cfg),
        mb * 1_048_576 <= u64::MAX,
    ensures
        cfg.pg_tier == PgTier::Primary <==> s.tier is None || s.tier == Some("primary"@),
        cfg.pg_tier == PgTier::Single <==> s.tier == Some("single"@),
        cfg.pg_tier == PgTier::Replica <==> s.tier == Some("replica"@),
        cfg.ephemeral <==> s.ephemeral == Some("1"@) || s.ephemeral == Some("true"@),
        cfg.cdc_enabled <==> s.cdc_enabled == Some("1"@) || s.cdc_enabled == Some("true"@),
        s.password == Some(cfg.postgres_password),
        s.database is Some ==> s.database == Some(cfg.postgres_database),
        s.database is None ==> cfg.postgres_database == "postgres"@,
        cfg.vcpus == vcpus,
        s.memory_mb is None ==> machine_ram == Some(cfg.ram_bytes),
        s.memory_mb == Some(decimal(mb)) ==> cfg.ram_bytes == mb * 1_048_576,
        s.recovery_target_time is Some ==> cfg.recovery_target_time == s.recovery_target_time,
        s.recovery_target_time is None ==> cfg.recovery_target_time == s.pitr_target,
        s.wal_sink is Some ==> cfg.wal_sink == s.wal_sink,
        s.wal_sink is None && cfg.recovery_target_time is Some ==> cfg.wal_sink
            == s.archive_target,
        s.wal_sink is None && cfg.recovery_target_time is None ==> cfg.wal_sink is None,
        cfg.primary_conninfo == s.primary_conninfo,
        cfg.replication_password == s.replication_password,
{
    reveal_strlit("primary");
    reveal_strlit("single");
    reveal_strlit("replica");
    assert("primary"@[0] == 'p' && "single"@[0] == 's' && "replica"@[0] == 'r');
    crate::number::law_numeral_reads_back(mb, 10, false, u64::MAX as nat);
}

/// Settings that can work are accepted: a known role, a password, memory that is known, and what the
/// role and recovery need.
pub proof fn law_workable_settings_are_accepted(s: SettingTexts, ram: u64, vcpus: u32)
    requires
        s.tier is None || s.tier == Some("primary"@) || s.tier == Some("single"@),
        s.password is Some,
        s.memory_mb is None,
        s.recovery_target_time is None && s.pitr_target is None || s.wal_sink is Some,
    ensures
        settled(s, Some(ram), vcpus) is Ok,
        s.password is Some && settled(
            SettingTexts { password: None, ..s },
            Some(ram),
            vcpus,
        ) is Err,
{
}

/// The file is tried five times: what can be read as a document ends the tries at once with that
/// document, a failure before the fifth leads to another try, and the fifth failure is told.
pub proof fn law_file_is_tried_five_times(
    attempt: u32,
    text: Seq<char>,
    document: Seq<char>,
    e: Seq<char>,
)
    ensures
        load_effect(attempt, Ok(text), Ok(document)) == LoadEffect::Loaded(text),
        attempt < 5 ==> load_effect(attempt, Ok(text), Err(e)) == LoadEffect::Again,
        attempt < 5 ==> load_effect(attempt, Err(e), Err(e)) == LoadEffect::Again,
        attempt >= 5 ==> load_effect(attempt, Ok(text), Err(e)) == LoadEffect::Fail(
            MmdsFault::Unavailable("JSON parse error: "@ + e),
        ),
        attempt >= 5 ==> load_effect(attempt, Err(e), Err(e)) == LoadEffect::Fail(
            MmdsFault::Unavailable("read error: "@ + e),
        ),
{
}

} // verus!
