//! The daemon's RPC vocabulary and its framing: each message is a JSON body
//! behind its length as a little-endian `u32`, and no body may be empty or
//! longer than `MAX_FRAME_BYTES`.

use vstd::prelude::*;
use crate::logfmt::push_str;
use crate::path::{join, spec_join};
use crate::text::{decimal, decimal_chars, extend_all, slice_to_vec, string_from_chars};

verus! {

/// Version of the request/response protocol.
pub const PROTOCOL_VERSION: u32 = 4;

/// Largest frame body, in bytes.
pub const MAX_FRAME_BYTES: usize = 256 * 1024;

/// A request: protocol version, client-chosen id, and the operation.
#[derive(Debug, Clone)]
pub struct Request {
    pub v: u32,
    pub id: String,
    pub op: RequestOp,
}

/// The operations a client can ask for.
#[derive(Debug, Clone)]
pub enum RequestOp {
    Ping,
    Stop,
    CancelAi { job_id: String },
    ListActiveJobs,
    /// Appends an event; `envelope` is the event envelope's JSON text, its
    /// sequence number not yet assigned.
    Append { session_dir: String, session_id: String, envelope: String },
    RebuildDerived { session_dir: String, session_id: String },
    DerivedStatus { session_dir: String },
    RunAi { request: AiRunRequest },
    RunAishRead { request: AishReadRequest },
    RunAishWrite { request: AishWriteRequest },
}

/// A request to run `ai` in the backend.
#[derive(Debug, Clone)]
pub struct AiRunRequest {
    pub job_id: String,
    pub parent_job_id: Option<String>,
    pub nesting_depth: u32,
    pub max_nesting_depth: Option<u32>,
    pub argv: Vec<String>,
    pub session_dir: Option<String>,
    pub aish_home: Option<String>,
    pub frontend_tty: Option<String>,
    pub cwd: Option<String>,
}

/// Process context for running an `aish` command in the backend.
#[derive(Debug, Clone)]
pub struct AishBackendContext {
    pub cwd: Option<String>,
    pub aish_home: Option<String>,
    pub aish_session: Option<String>,
    pub home_dir: Option<String>,
    pub session_dir: Option<String>,
}

/// Read-only `aish` commands the backend can run.
#[derive(Debug, Clone)]
pub enum AishReadRequest {
    MemoryList { context: AishBackendContext },
    MemoryGet { context: AishBackendContext, ids: Vec<String> },
    HistoryList {
        context: AishBackendContext,
        session_explicitly_specified: bool,
        all: bool,
        user_only: bool,
        assistant_only: bool,
    },
    HistoryGet { context: AishBackendContext, session_explicitly_specified: bool, ids: Vec<String> },
    PluginsList { context: AishBackendContext },
    ToolsList { context: AishBackendContext },
}

/// Short `aish` commands with side effects that the backend can run.
#[derive(Debug, Clone)]
pub enum AishWriteRequest {
    MemoryRemove { context: AishBackendContext, ids: Vec<String> },
}

#[derive(Debug, Clone)]
pub struct AishToolsListResult {
    pub tool_ids: Vec<String>,
    pub warnings: Vec<String>,
}

#[derive(Debug, Clone, Copy, PartialEq, Eq, Structural)]
pub enum AiJobState {
    Queued,
    Running,
    WaitingInteraction,
    Cancelled,
    Completed,
    Failed,
}

/// What the backend asks the frontend's user during a job.
#[derive(Debug, Clone)]
pub enum AiInteractionRequest {
    Approval { prompt: String },
    Continue { prompt: String },
    SensitivePrompt { verbose_output: String },
}

#[derive(Debug, Clone, Copy, PartialEq, Eq, Structural)]
pub enum SensitiveChoiceValue {
    Allow,
    Deny,
    Mask,
}

/// A frame the frontend sends back during a job.
#[derive(Debug, Clone)]
pub enum AiClientFrame {
    InteractionResponse { job_id: String, response: AiInteractionResponse },
}

#[derive(Debug, Clone)]
pub enum AiInteractionResponse {
    Approval { approved: bool },
    Continue { continue_: bool },
    SensitivePrompt { choice: SensitiveChoiceValue },
}

#[derive(Debug, Clone, Copy, PartialEq, Eq, Structural)]
pub enum OutputStream {
    Stdout,
    Stderr,
}

/// A response: `result` on success, `error` on failure.
#[derive(Debug, Clone)]
pub struct Response<T> {
    pub v: u32,
    pub id: String,
    pub ok: bool,
    pub result: Option<T>,
    pub error: Option<ErrorPayload>,
}

#[derive(Debug, Clone)]
pub struct ErrorPayload {
    pub code: String,
    pub message: String,
}

#[derive(Debug, Clone, Copy)]
pub struct PingResult {
    pub pid: u32,
}

#[derive(Debug, Clone, Copy)]
pub struct StopResult {
    pub pid: u32,
    pub stopping: bool,
}

#[derive(Debug, Clone)]
pub struct CancelAiResult {
    pub job_id: String,
    pub found: bool,
    pub signaled: bool,
}

#[derive(Debug, Clone)]
pub struct ActiveJobInfo {
    pub job_id: String,
    pub parent_job_id: Option<String>,
    pub state: AiJobState,
    pub session_dir: Option<String>,
}

/// The result of an append: the envelope's JSON text with its sequence number.
#[derive(Debug, Clone)]
pub struct AppendResult {
    pub envelope: String,
}

#[derive(Debug, Clone, Copy)]
pub struct RebuildDerivedResult {
    pub duration_ms: u64,
}

#[derive(Debug, Clone, Copy)]
pub struct DerivedStatusResult {
    pub last_applied_seq: u64,
    pub dirty: bool,
}

/// Why a frame cannot be written or read.
#[derive(Debug, Clone, Copy, PartialEq, Eq, Structural)]
pub enum FrameError {
    /// The body is longer than `MAX_FRAME_BYTES`.
    TooLarge { len: usize },
    /// The header announces an empty body or one longer than `MAX_FRAME_BYTES`.
    InvalidLength { len: u32 },
    /// The bytes end before the header or the body does.
    Truncated,
}

/// The four little-endian bytes of `n`.
pub open spec fn u32_le(n: nat) -> Seq<u8> {
    seq![(n % 256) as u8, ((n / 256) % 256) as u8, ((n / 65536) % 256) as u8, ((n / 16777216) % 256) as u8]
}

/// The number four little-endian bytes stand for.
pub open spec fn le_value(b: Seq<u8>) -> nat {
    (b[0] + 256 * b[1] + 65536 * b[2] + 16777216 * b[3]) as nat
}

/// A frame: the body's length, then the body.
pub open spec fn spec_frame(body: Seq<u8>) -> Seq<u8> {
    u32_le(body.len()) + body
}

pub open spec fn valid_body_len(n: nat) -> bool {
    0 < n <= MAX_FRAME_BYTES
}

/// What reading one frame from the start of `bytes` gives: the body and the
/// number of bytes it took.
pub open spec fn spec_read_frame(bytes: Seq<u8>) -> Result<(Seq<u8>, nat), FrameError> {
    if bytes.len() < 4 {
        Err(FrameError::Truncated)
    } else {
        let n = le_value(bytes.take(4));
        if !valid_body_len(n) {
            Err(FrameError::InvalidLength { len: n as u32 })
        } else if bytes.len() < 4 + n {
            Err(FrameError::Truncated)
        } else {
            Ok((bytes.subrange(4, 4 + n as int), 4 + n))
        }
    }
}

pub proof fn lemma_le_roundtrip(n: nat)
    requires n < 0x1_0000_0000,
    ensures le_value(u32_le(n)) == n,
{
    let b0 = n % 256;
    let b1 = (n / 256) % 256;
    let b2 = (n / 65536) % 256;
    let b3 = (n / 16777216) % 256;
    assert(n == b0 + 256 * b1 + 65536 * b2 + 16777216 * b3) by (nonlinear_arith)
        requires
            n < 0x1_0000_0000,
            b0 == n % 256,
            b1 == (n / 256) % 256,
            b2 == (n / 65536) % 256,
            b3 == (n / 16777216) % 256,
    ;
}

/// The frame that carries `body`; an error when the body is too long.
pub fn encode_frame(body: &[u8]) -> (r: Result<Vec<u8>, FrameError>)
    ensures
        body@.len() > MAX_FRAME_BYTES ==> r == Err::<Vec<u8>, FrameError>(FrameError::TooLarge { len: body@.len() as usize }),
        body@.len() <= MAX_FRAME_BYTES ==> (r matches Ok(v) && v@ == spec_frame(body@)),
{
    if body.len() > MAX_FRAME_BYTES {
        return Err(FrameError::TooLarge { len: body.len() });
    }
    let n = body.len();
    let mut v: Vec<u8> = Vec::new();
    v.push((n % 256) as u8);
    v.push(((n / 256) % 256) as u8);
    v.push(((n / 65536) % 256) as u8);
    v.push(((n / 16777216) % 256) as u8);
    extend_all(&mut v, body);
    assert(v@ =~= spec_frame(body@));
    Ok(v)
}

/// The body length a frame's four-byte header announces, when it is one a
/// frame may have (see `spec_read_frame`): what a reader of a stream needs
/// before it reads the body.
pub fn frame_body_len(head: &[u8]) -> (r: Result<usize, FrameError>)
    requires
        head@.len() >= 4,
    ensures
        valid_body_len(le_value(head@.take(4))) ==> r == Ok::<usize, FrameError>(le_value(head@.take(4)) as usize),
        !valid_body_len(le_value(head@.take(4))) ==> r == Err::<usize, FrameError>(FrameError::InvalidLength { len: le_value(head@.take(4)) as u32 }),
{
    let n: u64 = head[0] as u64 + 256 * (head[1] as u64) + 65536 * (head[2] as u64) + 16777216 * (head[3] as u64);
    assert(head@.take(4)[0] == head@[0] && head@.take(4)[1] == head@[1]);
    assert(head@.take(4)[2] == head@[2] && head@.take(4)[3] == head@[3]);
    assert(n == le_value(head@.take(4)));
    if n == 0 || n > MAX_FRAME_BYTES as u64 {
        return Err(FrameError::InvalidLength { len: n as u32 });
    }
    Ok(n as usize)
}

/// Reads one frame from the start of `bytes`: the body and how many bytes
/// the frame took.
pub fn decode_frame(bytes: &[u8]) -> (r: Result<(Vec<u8>, usize), FrameError>)
    ensures
        match spec_read_frame(bytes@) {
            Ok((body, used)) => r matches Ok((b, u)) && b@ == body && u as nat == used,
            Err(e) => r == Err::<(Vec<u8>, usize), FrameError>(e),
        },
{
    if bytes.len() < 4 {
        return Err(FrameError::Truncated);
    }
    let n: u64 = bytes[0] as u64 + 256 * (bytes[1] as u64) + 65536 * (bytes[2] as u64) + 16777216 * (bytes[3] as u64);
    assert(bytes@.take(4)[0] == bytes@[0] && bytes@.take(4)[1] == bytes@[1]);
    assert(bytes@.take(4)[2] == bytes@[2] && bytes@.take(4)[3] == bytes@[3]);
    assert(n == le_value(bytes@.take(4)));
    if n == 0 || n > MAX_FRAME_BYTES as u64 {
        return Err(FrameError::InvalidLength { len: n as u32 });
    }
    let len = n as usize;
    if bytes.len() - 4 < len {
        return Err(FrameError::Truncated);
    }
    let body = slice_to_vec(bytes, 4, 4 + len);
    Ok((body, 4 + len))
}

/// Reading back a frame gives the body it was written with, for every body
/// that can be framed and read (neither empty nor too long), whatever bytes
/// follow it.
pub proof fn lemma_frame_roundtrip(body: Seq<u8>, rest: Seq<u8>)
    requires
        valid_body_len(body.len()),
    ensures
        spec_read_frame(spec_frame(body) + rest) == Ok::<(Seq<u8>, nat), FrameError>((body, 4 + body.len())),
{
    let f = spec_frame(body) + rest;
    lemma_le_roundtrip(body.len());
    assert(f.take(4) =~= u32_le(body.len()));
    assert(f.subrange(4, 4 + body.len() as int) =~= body);
}

/// The message `std::io::Error` carries for a frame error.
pub open spec fn spec_frame_error_message(e: FrameError) -> Seq<char> {
    match e {
        FrameError::TooLarge { len } => "frame too large: "@ + decimal(len as nat) + " bytes (max "@ + decimal(MAX_FRAME_BYTES as nat) + ")"@,
        FrameError::InvalidLength { len } => "invalid frame length: "@ + decimal(len as nat),
        FrameError::Truncated => "failed to fill whole buffer"@,
    }
}

impl FrameError {
    /// The error's message.
    pub fn message(&self) -> (r: String)
        ensures r@ == spec_frame_error_message(*self),
    {
        let mut v: Vec<char> = Vec::new();
        match self {
            FrameError::TooLarge { len } => {
                push_str(&mut v, "frame too large: ");
                let d = decimal_chars(*len as u64);
                extend_all(&mut v, d.as_slice());
                push_str(&mut v, " bytes (max ");
                let m = decimal_chars(MAX_FRAME_BYTES as u64);
                extend_all(&mut v, m.as_slice());
                push_str(&mut v, ")");
            },
            FrameError::InvalidLength { len } => {
                push_str(&mut v, "invalid frame length: ");
                let d = decimal_chars(*len as u64);
                extend_all(&mut v, d.as_slice());
            },
            FrameError::Truncated => {
                push_str(&mut v, "failed to fill whole buffer");
            },
        }
        string_from_chars(v.as_slice())
    }
}

/// Where the daemon's socket is: `AISH_DAEMON_SOCK` when set, else
/// `aish/aishd.sock` under `XDG_RUNTIME_DIR`, else under `TMPDIR`, else
/// under `/tmp` (each argument is that variable's value, if set).
pub fn default_socket_path(daemon_sock: Option<&str>, xdg_runtime_dir: Option<&str>, tmpdir: Option<&str>) -> (r: String)
    ensures
        r@ == match daemon_sock {
            Some(p) => p@,
            None => spec_join(spec_join(
                match xdg_runtime_dir {
                    Some(x) => x@,
                    None => match tmpdir { Some(t) => t@, None => "/tmp"@ },
                },
                "aish"@), "aishd.sock"@),
        },
{
    match daemon_sock {
        Some(p) => crate::text::string_from_chars(crate::text::chars_of(p).as_slice()),
        None => {
            let base = match xdg_runtime_dir {
                Some(x) => x,
                None => match tmpdir {
                    Some(t) => t,
                    None => "/tmp",
                },
            };
            let a = join(base, "aish");
            join(a.as_str(), "aishd.sock")
        },
    }
}

} // verus!
