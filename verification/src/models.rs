//! Plain data shared by the supervisor, the tailer and the log store.

use vstd::prelude::*;
use vstd::string::*;

verus! {

/// How a service is run.
#[derive(Clone, Copy, Debug, PartialEq, Eq, Structural)]
pub enum ServiceType {
    Go,
    NodeJs,
    TypeScript,
    Php,
    Docker,
}

/// Where a service is in its lifecycle.
#[derive(Clone, Copy, Debug, PartialEq, Eq, Structural)]
pub enum ServiceStatus {
    Running,
    Stopped,
    Error,
    Starting,
    Stopping,
}

/// An instant: whole seconds since the Unix epoch and the nanoseconds within
/// that second. During a leap second `nanos` runs past one thousand million,
/// so instants are ordered by the pair, seconds first.
#[derive(Clone, Copy, Debug, PartialEq, Eq, Structural)]
pub struct Timestamp {
    pub secs: i64,
    pub nanos: u32,
}

impl Timestamp {
    /// `self` is not later than `other`.
    pub open spec fn not_after(self, other: Timestamp) -> bool {
        self.secs < other.secs || (self.secs == other.secs && self.nanos <= other.nanos)
    }

    /// Whether `self` is not later than `other`.
    pub fn is_not_after(&self, other: &Timestamp) -> (r: bool)
        ensures
            r == self.not_after(*other),
    {
        self.secs < other.secs || (self.secs == other.secs && self.nanos <= other.nanos)
    }
}

/// One variable of a service's environment.
#[derive(Debug)]
pub struct EnvVar {
    pub key: String,
    pub value: String,
}

impl Clone for EnvVar {
    fn clone(&self) -> (r: Self)
        ensures
            r == *self,
    {
        EnvVar { key: self.key.clone(), value: self.value.clone() }
    }
}

impl View for EnvVar {
    type V = (Seq<char>, Seq<char>);

    open spec fn view(&self) -> (Seq<char>, Seq<char>) {
        (self.key@, self.value@)
    }
}

/// An environment as a list of pairs of key and value.
pub open spec fn env_view(env: Seq<EnvVar>) -> Seq<(Seq<char>, Seq<char>)> {
    env.map_values(|e: EnvVar| e@)
}

/// No key occurs twice.
pub open spec fn keys_unique(env: Seq<(Seq<char>, Seq<char>)>) -> bool {
    forall|i: int, j: int| 0 <= i < j < env.len() ==> (#[trigger] env[i]).0 != (#[trigger] env[j]).0
}

/// Some variable of the environment has the key `key`.
pub open spec fn has_env_key(env: Seq<(Seq<char>, Seq<char>)>, key: Seq<char>) -> bool {
    exists|i: int| 0 <= i < env.len() && (#[trigger] env[i]).0 == key
}

/// A service descriptor: what to run, where, and how it is doing.
#[derive(Debug)]
pub struct Service {
    pub id: String,
    pub name: String,
    pub service_type: ServiceType,
    pub status: ServiceStatus,
    pub command: String,
    pub working_dir: String,
    pub port: Option<u16>,
    pub auto_restart: bool,
    pub restart_count: u32,
    pub created_at: Timestamp,
    pub updated_at: Timestamp,
    pub environment: Vec<EnvVar>,
}

/// What a service descriptor holds, with its texts as sequences of
/// characters.
pub struct ServiceView {
    pub id: Seq<char>,
    pub name: Seq<char>,
    pub service_type: ServiceType,
    pub status: ServiceStatus,
    pub command: Seq<char>,
    pub working_dir: Seq<char>,
    pub port: Option<u16>,
    pub auto_restart: bool,
    pub restart_count: u32,
    pub created_at: Timestamp,
    pub updated_at: Timestamp,
    pub environment: Seq<(Seq<char>, Seq<char>)>,
}

impl View for Service {
    type V = ServiceView;

    open spec fn view(&self) -> ServiceView {
        ServiceView {
            id: self.id@,
            name: self.name@,
            service_type: self.service_type,
            status: self.status,
            command: self.command@,
            working_dir: self.working_dir@,
            port: self.port,
            auto_restart: self.auto_restart,
            restart_count: self.restart_count,
            created_at: self.created_at,
            updated_at: self.updated_at,
            environment: env_view(self.environment@),
        }
    }
}

impl ServiceView {
    /// The environment names each variable once.
    pub open spec fn wf(self) -> bool {
        keys_unique(self.environment)
    }
}

impl Service {
    /// Whether the environment names each variable once.
    pub fn is_well_formed(&self) -> (r: bool)
        ensures
            r == self@.wf(),
    {
        let ghost env = env_view(self.environment@);
        let mut j: usize = 0;
        while j < self.environment.len()
            invariant
                0 <= j <= self.environment@.len(),
                env == env_view(self.environment@),
                forall|a: int, b: int| 0 <= a < b < j ==> (#[trigger] env[a]).0 != (#[trigger] env[b]).0,
            decreases self.environment@.len() - j,
        {
            let mut i: usize = 0;
            while i < j
                invariant
                    0 <= i <= j < self.environment@.len(),
                    env == env_view(self.environment@),
                    forall|a: int| 0 <= a < i ==> (#[trigger] env[a]).0 != env[j as int].0,
                decreases j - i,
            {
                if self.environment[i].key == self.environment[j].key {
                    assert(env[i as int].0 == env[j as int].0);
                    return false;
                }
                i = i + 1;
            }
            j = j + 1;
        }
        true
    }
}

/// The services of a list, each by its view.
pub open spec fn service_views(services: Seq<Service>) -> Seq<ServiceView> {
    services.map_values(|s: Service| s@)
}

impl Clone for Service {
    fn clone(&self) -> (r: Self)
        ensures
            r@ == self@,
    {
        Service {
            id: self.id.clone(),
            name: self.name.clone(),
            service_type: self.service_type,
            status: self.status,
            command: self.command.clone(),
            working_dir: self.working_dir.clone(),
            port: self.port,
            auto_restart: self.auto_restart,
            restart_count: self.restart_count,
            created_at: self.created_at,
            updated_at: self.updated_at,
            environment: self.environment.clone(),
        }
    }
}

/// Severity of a log line.
#[derive(Clone, Copy, Debug, PartialEq, Eq, Structural)]
pub enum LogLevel {
    Error,
    Warn,
    Debug,
    Info,
}

impl LogLevel {
    /// The lower-case name under which the level is stored and shown.
    pub open spec fn name(self) -> Seq<char> {
        match self {
            LogLevel::Error => "error"@,
            LogLevel::Warn => "warn"@,
            LogLevel::Debug => "debug"@,
            LogLevel::Info => "info"@,
        }
    }

    /// The name of the level.
    pub fn as_str(&self) -> (r: &'static str)
        ensures
            r@ == self.name(),
    {
        match self {
            LogLevel::Error => "error",
            LogLevel::Warn => "warn",
            LogLevel::Debug => "debug",
            LogLevel::Info => "info",
        }
    }
}

/// One line of a service's output with what was derived from it.
#[derive(Debug)]
pub struct LogEntry {
    pub timestamp: Timestamp,
    pub service_id: String,
    pub level: LogLevel,
    pub message: String,
}

impl Clone for LogEntry {
    fn clone(&self) -> (r: Self)
        ensures
            r == *self,
    {
        LogEntry {
            timestamp: self.timestamp,
            service_id: self.service_id.clone(),
            level: self.level,
            message: self.message.clone(),
        }
    }
}

/// What a log entry holds, with its texts as sequences of characters.
pub struct LogEntryView {
    pub timestamp: Timestamp,
    pub service_id: Seq<char>,
    pub level: LogLevel,
    pub message: Seq<char>,
}

impl View for LogEntry {
    type V = LogEntryView;

    open spec fn view(&self) -> LogEntryView {
        LogEntryView {
            timestamp: self.timestamp,
            service_id: self.service_id@,
            level: self.level,
            message: self.message@,
        }
    }
}

/// The entries of a list, each by its view.
pub open spec fn entry_views(entries: Seq<LogEntry>) -> Seq<LogEntryView> {
    entries.map_values(|e: LogEntry| e@)
}

/// The texts of a list of strings.
pub open spec fn texts(lines: Seq<String>) -> Seq<Seq<char>> {
    lines.map_values(|l: String| l@)
}

/// The text of an optional string.
pub open spec fn opt_string(s: Option<String>) -> Option<Seq<char>> {
    match s {
        Some(t) => Some(t@),
        None => None,
    }
}

/// The text of an optional string slice.
pub open spec fn opt_text(s: Option<&str>) -> Option<Seq<char>> {
    match s {
        Some(t) => Some(t@),
        None => None,
    }
}

/// The answer to a log query: the entries, how many lines there were in all,
/// and how many passed the filters.
#[derive(Debug)]
pub struct FilteredLogsResponse {
    pub logs: Vec<LogEntry>,
    pub total: usize,
    pub filtered: usize,
}

} // verus!
