//! Small domain values (session and run identifiers, log levels, path
//! resolution input) and the outbound ports the use cases are written
//! against: clock, id generator, process runner, path resolver and runtime
//! catalog. Adapters implement the ports outside the verified core.

use vstd::prelude::*;
use vstd::string::*;
use crate::catalog::{CatalogKind, CatalogLocation};
use crate::error::Error;

verus! {

/// A session identifier.
#[derive(Debug, Clone)]
pub struct SessionId(pub String);

impl SessionId {
    pub fn new(s: &str) -> (r: SessionId)
        ensures r.0@ == s@,
    {
        SessionId(String::from_str(s))
    }
}

/// The identifier of one run.
#[derive(Debug, Clone)]
pub struct RunId(pub String);

impl RunId {
    pub fn new(s: &str) -> (r: RunId)
        ensures r.0@ == s@,
    {
        RunId(String::from_str(s))
    }
}

/// Severity of a log record.
#[derive(Debug, Clone, Copy, PartialEq, Eq, Structural)]
pub enum LogLevel {
    Error,
    Warn,
    Info,
    Debug,
}

pub open spec fn spec_log_level_name(l: LogLevel) -> Seq<char> {
    match l {
        LogLevel::Error => "error"@,
        LogLevel::Warn => "warn"@,
        LogLevel::Info => "info"@,
        LogLevel::Debug => "debug"@,
    }
}

impl LogLevel {
    /// The level's name as log records write it (lower case).
    pub fn as_str(&self) -> (r: &'static str)
        ensures r@ == spec_log_level_name(*self),
    {
        match self {
            LogLevel::Error => "error",
            LogLevel::Warn => "warn",
            LogLevel::Info => "info",
            LogLevel::Debug => "debug",
        }
    }
}

/// The command line's home and session directory options.
#[derive(Debug, Clone)]
pub struct PathResolverInput {
    pub home_dir: Option<String>,
    pub session_dir: Option<String>,
}

impl PathResolverInput {
    /// Neither option given.
    pub fn empty() -> (r: PathResolverInput)
        ensures r.home_dir is None, r.session_dir is None,
    {
        PathResolverInput { home_dir: None, session_dir: None }
    }
}

/// The current time.
pub trait Clock {
    /// Milliseconds since the Unix epoch.
    fn now_ms(&self) -> u64;
}

/// The clock of the system.
#[derive(Debug, Clone, Copy)]
pub struct StdClock;

/// Milliseconds since the Unix epoch by the system clock (0 when the clock
/// is before the epoch). Nothing is claimed of the value: it is the time.
#[verifier::external_body]
fn system_time_ms() -> u64 {
    std::time::SystemTime::now().duration_since(std::time::UNIX_EPOCH).unwrap_or_default().as_millis() as u64
}

impl Clock for StdClock {
    fn now_ms(&self) -> u64 {
        system_time_ms()
    }
}

/// Makes unique part identifiers.
pub trait IdGenerator {
    fn next_id(&self) -> String;
}

/// Runs a program to completion.
pub trait Process {
    /// The program's exit code.
    fn run(&self, program: &str, args: &[String]) -> Result<i32, Error>;
}

/// Resolves the home and session directories.
pub trait PathResolver {
    fn resolve_home_dir(&self, input: &PathResolverInput) -> Result<String, Error>;

    fn resolve_session_dir(&self, input: &PathResolverInput, home_dir: &str) -> Result<String, Error>;
}

/// Lists where runtime resources are looked up, in priority order, and the
/// project root.
pub trait RuntimeCatalog {
    /// The existing locations of a kind, highest priority first.
    fn locations(&self, kind: CatalogKind) -> Result<Vec<CatalogLocation>, Error>;

    /// The nearest ancestor of the working directory with an `.aish`
    /// directory, if any.
    fn project_root(&self) -> Result<Option<String>, Error>;
}

} // verus!
