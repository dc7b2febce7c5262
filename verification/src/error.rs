//! Application error type and its mapping to process exit codes.
//!
//! Domain and use-case code returns `Result<T, Error>`; only the command-line
//! boundary turns an `Error` into an exit code with `Error::exit_code`.

use vstd::prelude::*;
use vstd::string::*;

verus! {

#[verifier::external_type_specification]
#[verifier::external_body]
pub struct ExIoError(std::io::Error);

/// Unified application error.
#[derive(Debug)]
pub enum Error {
    /// Invalid argument (exit code 64).
    InvalidArgument(String),
    /// I/O failure (exit code 74).
    Io { message: String, source: Option<std::io::Error> },
    /// Missing or invalid environment variable (exit code 64).
    Env(String),
    /// Provider configuration or unknown provider (exit code 64).
    Provider(String),
    /// HTTP / API communication failure (exit code 74).
    Http(String),
    /// JSON parse or protocol failure (exit code 74).
    Json(String),
    /// Task not found (exit code 64).
    TaskNotFound(String),
    /// System or signal failure (exit code 70).
    System(String),
    /// An error wrapped with extra context; exit code and usage follow the source.
    WithContext { context: String, source: Box<Error> },
}

/// Exit code of usage-type errors.
pub const EXIT_USAGE: i32 = 64;
/// Exit code of internal software/system errors.
pub const EXIT_SOFTWARE: i32 = 70;
/// Exit code of I/O-type errors.
pub const EXIT_IO: i32 = 74;

impl Error {
    /// The exit code of an error: the code of the innermost error under any contexts.
    pub open spec fn spec_exit_code(self) -> i32
        decreases self,
    {
        match self {
            Error::InvalidArgument(_) => 64,
            Error::Env(_) => 64,
            Error::Provider(_) => 64,
            Error::TaskNotFound(_) => 64,
            Error::System(_) => 70,
            Error::Io { .. } => 74,
            Error::Http(_) => 74,
            Error::Json(_) => 74,
            Error::WithContext { source, .. } => source.spec_exit_code(),
        }
    }

    /// Whether the usage text should be shown for this error.
    pub open spec fn spec_is_usage(self) -> bool {
        self.spec_exit_code() == 64
    }

    /// The text that the error displays: its message, or for a wrapped error
    /// the context, a newline, two spaces and the wrapped error's text.
    pub open spec fn spec_message(self) -> Seq<char>
        decreases self,
    {
        match self {
            Error::InvalidArgument(m) => m@,
            Error::Io { message, .. } => message@,
            Error::Env(m) => m@,
            Error::Provider(m) => m@,
            Error::Http(m) => m@,
            Error::Json(m) => m@,
            Error::TaskNotFound(m) => m@,
            Error::System(m) => m@,
            Error::WithContext { context, source } => context@ + seq!['\n', ' ', ' '] + source.spec_message(),
        }
    }

    /// Exit code used at the command-line boundary (BSD sysexits style).
    pub fn exit_code(&self) -> (r: i32)
        ensures
            r == self.spec_exit_code(),
            r == 64 || r == 70 || r == 74,
        decreases self,
    {
        match self {
            Error::InvalidArgument(_) | Error::Env(_) | Error::Provider(_) | Error::TaskNotFound(_) => 64,
            Error::System(_) => 70,
            Error::Io { .. } | Error::Http(_) | Error::Json(_) => 74,
            Error::WithContext { source, .. } => source.exit_code(),
        }
    }

    /// Whether usage should be shown (invalid argument, env, provider, task not found).
    pub fn is_usage(&self) -> (r: bool)
        ensures
            r == self.spec_is_usage(),
        decreases self,
    {
        match self {
            Error::WithContext { source, .. } => source.is_usage(),
            _ => self.exit_code() == 64,
        }
    }

    /// Wraps the error with context that helps to resolve it.
    pub fn with_context(self, context: &str) -> (r: Self)
        ensures
            r matches Error::WithContext { context: c, source } && c@ == context@ && *source == self,
            r.spec_exit_code() == self.spec_exit_code(),
            r.spec_is_usage() == self.spec_is_usage(),
    {
        Error::WithContext { context: String::from_str(context), source: Box::new(self) }
    }

    pub fn invalid_argument(msg: &str) -> (r: Self)
        ensures r matches Error::InvalidArgument(m) && m@ == msg@,
    {
        Error::InvalidArgument(String::from_str(msg))
    }

    pub fn io_msg(msg: &str) -> (r: Self)
        ensures r matches Error::Io { message, source } && message@ == msg@ && source is None,
    {
        Error::Io { message: String::from_str(msg), source: None }
    }

    pub fn env(msg: &str) -> (r: Self)
        ensures r matches Error::Env(m) && m@ == msg@,
    {
        Error::Env(String::from_str(msg))
    }

    pub fn provider(msg: &str) -> (r: Self)
        ensures r matches Error::Provider(m) && m@ == msg@,
    {
        Error::Provider(String::from_str(msg))
    }

    pub fn http(msg: &str) -> (r: Self)
        ensures r matches Error::Http(m) && m@ == msg@,
    {
        Error::Http(String::from_str(msg))
    }

    pub fn json(msg: &str) -> (r: Self)
        ensures r matches Error::Json(m) && m@ == msg@,
    {
        Error::Json(String::from_str(msg))
    }

    pub fn task_not_found(msg: &str) -> (r: Self)
        ensures r matches Error::TaskNotFound(m) && m@ == msg@,
    {
        Error::TaskNotFound(String::from_str(msg))
    }

    pub fn system(msg: &str) -> (r: Self)
        ensures r matches Error::System(m) && m@ == msg@,
    {
        Error::System(String::from_str(msg))
    }

    /// The text that the error displays.
    pub fn message(&self) -> (r: String)
        ensures r@ == self.spec_message(),
        decreases self,
    {
        match self {
            Error::InvalidArgument(m) | Error::Env(m) | Error::Provider(m) | Error::Http(m)
            | Error::Json(m) | Error::TaskNotFound(m) | Error::System(m) => m.clone(),
            Error::Io { message, .. } => message.clone(),
            Error::WithContext { context, source } => {
                let inner = source.message();
                let r = context.clone().concat("\n  ");
                proof { reveal_strlit("\n  "); }
                r.concat(inner.as_str())
            },
        }
    }
}

/// The text that an I/O error displays (`std::io::Error`'s `Display`).
/// Nothing is claimed of the text: it may come from the operating system.
#[verifier::external_body]
fn io_error_text(e: &std::io::Error) -> String {
    e.to_string()
}

impl From<std::io::Error> for Error {
    /// An I/O error becomes `Error::Io` carrying the error's text and the error itself.
    fn from(e: std::io::Error) -> (r: Self)
        ensures
            r matches Error::Io { source, .. } && source == Some(e),
            r.spec_exit_code() == 74,
    {
        let message = io_error_text(&e);
        Error::Io { message, source: Some(e) }
    }
}

impl vstd::std_specs::convert::FromSpecImpl<std::io::Error> for Error {
    /// The text of an I/O error is not known to the specification, so only
    /// the clauses on `from` itself describe the conversion.
    open spec fn obeys_from_spec() -> bool {
        false
    }

    open spec fn from_spec(v: std::io::Error) -> Error {
        Error::Io { message: choose|m: String| #[trigger] m@ == Seq::<char>::empty(), source: Some(v) }
    }
}

/// Exit code and usage flag are decided by the innermost error, however many
/// contexts wrap it.
pub proof fn lemma_context_preserves_exit_code(e: Error, context: String)
    ensures
        (Error::WithContext { context, source: Box::new(e) }).spec_exit_code() == e.spec_exit_code(),
        (Error::WithContext { context, source: Box::new(e) }).spec_is_usage() == e.spec_is_usage(),
{
}

/// An error asks for the usage text exactly when its exit code is 64, and every
/// exit code is one of 64, 70 and 74.
pub proof fn lemma_exit_code_classes(e: Error)
    ensures
        e.spec_is_usage() <==> e.spec_exit_code() == 64,
        e.spec_exit_code() == 64 || e.spec_exit_code() == 70 || e.spec_exit_code() == 74,
    decreases e,
{
    if let Error::WithContext { source, .. } = e {
        lemma_exit_code_classes(*source);
    }
}

} // verus!
