//! The JSON-RPC exchange with a plugin server over its standard input and
//! output: the request lines, how a response is judged against the request
//! it answers, what `list_tools` and `call_tool` make of a result, and the
//! tail of the server's standard error kept for diagnostics.

use vstd::prelude::*;
use vstd::utf8::*;
use crate::error::Error;
use crate::json::{get_member, json_normal_text, json_value, member_of, normalize_json, parse_json_opt, quote, JsonNode};
use crate::logfmt::{json_string_literal, push_str};
use crate::text::{
    chars_of, decimal, decimal_chars, extend_all, parse_unsigned_chars, parse_unsigned_upto, signed_decimal,
    signed_decimal_chars, string_from_chars, trim, trim_chars, utf8_len, utf8_length,
};

verus! {

/// Longest response line read from a server, in bytes.
pub const MAX_RESPONSE_LINE_BYTES: usize = 2097152;

/// How much of a server's standard error is kept, in bytes.
pub const STDERR_TAIL_MAX_BYTES: usize = 4096;

/// Largest tool result accepted, in bytes of its JSON text.
pub const MAX_TOOL_RESULT_BYTES: usize = 262144;

/// A response id as a number: `as_u64` of a number (by the text it is
/// printed as), `parse::<u64>` of a string; nothing else.
pub open spec fn spec_id_u64(id: Option<JsonNode>) -> Option<u64> {
    match id {
        Some(JsonNode::Number(t)) => match parse_unsigned_upto(t@, u64::MAX as nat) {
            Some(v) => Some(v as u64),
            None => None,
        },
        Some(JsonNode::Str(s)) => match parse_unsigned_upto(s@, u64::MAX as nat) {
            Some(v) => Some(v as u64),
            None => None,
        },
        _ => None,
    }
}

/// The id of a response, given as JSON text, as a number (see `spec_id_u64`).
pub fn json_rpc_id_to_u64(id: &str) -> (r: Option<u64>)
    ensures r == spec_id_u64(json_value(id@)),
{
    match parse_json_opt(id) {
        Some(JsonNode::Number(t)) => {
            let c = chars_of(t.as_str());
            parse_unsigned_chars(c.as_slice(), u64::MAX)
        },
        Some(JsonNode::Str(s)) => {
            let c = chars_of(s.as_str());
            parse_unsigned_chars(c.as_slice(), u64::MAX)
        },
        _ => None,
    }
}

/// A response line as the JSON-RPC types read it: an error response (an
/// `id` and an `error` with `code` and `message`) or else a success
/// response (an `id` and, when present and not null, a `result`). Each
/// value is held as its JSON text; `id_debug` is how the id is shown in
/// messages.
pub enum RpcResponse {
    Error { id: String, id_debug: String, code: i64, message: String },
    Success { id: String, id_debug: String, result: Option<String> },
}

/// What a response to a request says.
#[derive(Debug)]
pub enum JsonRpcParseResult {
    /// The result, as JSON text.
    Success(String),
    RpcError { code: i64, message: String },
}

pub open spec fn id_mismatch_text(expected: u64, id_debug: Seq<char>) -> Seq<char> {
    "response id mismatch: expected "@ + decimal(expected as nat) + ", got "@ + id_debug
}

fn id_mismatch(expected: u64, id_debug: &str) -> (r: Error)
    ensures r matches Error::Json(m) && m@ == id_mismatch_text(expected, id_debug@),
{
    let mut v = chars_of("response id mismatch: expected ");
    extend_all(&mut v, decimal_chars(expected).as_slice());
    push_str(&mut v, ", got ");
    push_str(&mut v, id_debug);
    Error::Json(string_from_chars(v.as_slice()))
}

/// Judges a response against the id of the request it answers: a response
/// that could not be read is a JSON error (`parse response: ` and why); an
/// id that is not the request's is a JSON error; an error response gives
/// its code and message; a success response gives its result, and a JSON
/// error when it has none.
pub fn json_rpc_response_outcome(parsed: Result<RpcResponse, String>, expected_id: u64) -> (r: Result<JsonRpcParseResult, Error>)
    ensures
        match parsed {
            Err(why) => r matches Err(Error::Json(m)) && m@ == "parse response: "@ + why@,
            Ok(RpcResponse::Error { id, id_debug, code, message }) =>
                if spec_id_u64(json_value(id@)) != Some(expected_id) {
                    r matches Err(Error::Json(m)) && m@ == id_mismatch_text(expected_id, id_debug@)
                } else {
                    r matches Ok(JsonRpcParseResult::RpcError { code: c, message: t }) && c == code && t@ == message@
                },
            Ok(RpcResponse::Success { id, id_debug, result }) =>
                if spec_id_u64(json_value(id@)) != Some(expected_id) {
                    r matches Err(Error::Json(m)) && m@ == id_mismatch_text(expected_id, id_debug@)
                } else {
                    match result {
                        None => r matches Err(Error::Json(m)) && m@ == "missing result"@,
                        Some(t) => r matches Ok(JsonRpcParseResult::Success(x)) && x@ == t@,
                    }
                },
        },
{
    match parsed {
        Err(why) => {
            let mut v = chars_of("parse response: ");
            push_str(&mut v, why.as_str());
            Err(Error::Json(string_from_chars(v.as_slice())))
        },
        Ok(RpcResponse::Error { id, id_debug, code, message }) => {
            match json_rpc_id_to_u64(id.as_str()) {
                Some(n) if n == expected_id => Ok(JsonRpcParseResult::RpcError { code, message }),
                _ => Err(id_mismatch(expected_id, id_debug.as_str())),
            }
        },
        Ok(RpcResponse::Success { id, id_debug, result }) => {
            match json_rpc_id_to_u64(id.as_str()) {
                Some(n) if n == expected_id => match result {
                    None => Err(Error::Json(String::from_str("missing result"))),
                    Some(t) => Ok(JsonRpcParseResult::Success(t)),
                },
                _ => Err(id_mismatch(expected_id, id_debug.as_str())),
            }
        },
    }
}

/// The result of a request: the success result, or a system error for an
/// error response (`JSON-RPC error CODE: MESSAGE`).
pub fn request_outcome(r: JsonRpcParseResult) -> (out: Result<String, Error>)
    ensures
        match r {
            JsonRpcParseResult::Success(t) => out matches Ok(x) && x@ == t@,
            JsonRpcParseResult::RpcError { code, message } =>
                out matches Err(Error::System(m)) && m@ == "JSON-RPC error "@ + signed_decimal(code as int) + ": "@ + message@,
        },
{
    match r {
        JsonRpcParseResult::Success(t) => Ok(t),
        JsonRpcParseResult::RpcError { code, message } => {
            let mut v = chars_of("JSON-RPC error ");
            extend_all(&mut v, signed_decimal_chars(code).as_slice());
            push_str(&mut v, ": ");
            push_str(&mut v, message.as_str());
            Err(Error::System(string_from_chars(v.as_slice())))
        },
    }
}

/// The request line for `method` with id `id` and, when given, the
/// parameters (as they print).
pub open spec fn spec_request_line(id: u64, method: Seq<char>, params: Option<Seq<char>>) -> Seq<char> {
    "{\"jsonrpc\":\"2.0\",\"id\":"@ + decimal(id as nat) + ",\"method\":"@ + json_string_literal(method)
        + match params {
            Some(p) => ",\"params\":"@ + p,
            None => seq![],
        } + "}"@
}

/// The request line (see `spec_request_line`); `params` is JSON text, and
/// `None` comes back when it is not JSON.
pub fn request_line(id: u64, method: &str, params: Option<&str>) -> (r: Option<String>)
    ensures
        match params {
            None => r matches Some(s) && s@ == spec_request_line(id, method@, None),
            Some(p) => match json_normal_text(p@) {
                Some(n) => r matches Some(s) && s@ == spec_request_line(id, method@, Some(n)),
                None => r is None,
            },
        },
{
    let norm: Option<String> = match params {
        None => None,
        Some(p) => match normalize_json(p) {
            Some(n) => Some(n),
            None => return None,
        },
    };
    let mut v = chars_of("{\"jsonrpc\":\"2.0\",\"id\":");
    extend_all(&mut v, decimal_chars(id).as_slice());
    push_str(&mut v, ",\"method\":");
    let q = quote(method);
    push_str(&mut v, q.as_str());
    let ghost before = v@;
    match &norm {
        Some(n) => {
            push_str(&mut v, ",\"params\":");
            push_str(&mut v, n.as_str());
        },
        None => {},
    }
    push_str(&mut v, "}");
    let s = string_from_chars(v.as_slice());
    assert(s@ =~= spec_request_line(id, method@, match norm { Some(n) => Some(n@), None => None }));
    Some(s)
}

/// The parameters of `call_tool`: `arguments` and `name`, in the order a
/// JSON object keeps its keys.
pub open spec fn spec_call_tool_params(name: Seq<char>, arguments: Seq<char>) -> Seq<char> {
    "{\"arguments\":"@ + arguments + ",\"name\":"@ + json_string_literal(name) + "}"@
}

/// The parameters of `call_tool` (see `spec_call_tool_params`), with the
/// arguments as they print; `None` when the arguments are not JSON.
pub fn call_tool_params(name: &str, arguments: &str) -> (r: Option<String>)
    ensures
        match json_normal_text(arguments@) {
            Some(a) => r matches Some(s) && s@ == spec_call_tool_params(name@, a),
            None => r is None,
        },
{
    let a = match normalize_json(arguments) {
        Some(a) => a,
        None => return None,
    };
    let mut v = chars_of("{\"arguments\":");
    push_str(&mut v, a.as_str());
    push_str(&mut v, ",\"name\":");
    let q = quote(name);
    push_str(&mut v, q.as_str());
    push_str(&mut v, "}");
    Some(string_from_chars(v.as_slice()))
}

/// The tools a `list_tools` result lists (each as JSON text); a JSON error
/// when the result is not an array.
pub fn list_tools_result(result: &str) -> (r: Result<Vec<String>, Error>)
    ensures
        match json_value(result@) {
            Some(JsonNode::Array(items)) => r matches Ok(v) && v@.map_values(|s: String| s@) == items@.map_values(|s: String| s@),
            _ => r matches Err(Error::Json(m)) && m@ == "list_tools result must be array"@,
        },
{
    match parse_json_opt(result) {
        Some(JsonNode::Array(items)) => Ok(items),
        _ => Err(Error::Json(String::from_str("list_tools result must be array"))),
    }
}

/// The content of a `call_tool` result: its `content` member, `{}` when it
/// has none.
pub open spec fn spec_tool_content(result: Seq<char>) -> Seq<char> {
    match get_member(json_value(result), "content"@) {
        Some(c) => c,
        None => "{}"@,
    }
}

pub open spec fn too_large_text(bytes: nat) -> Seq<char> {
    "tool output too large: "@ + decimal(bytes) + " bytes (cap "@ + decimal(MAX_TOOL_RESULT_BYTES as nat) + ")"@
}

/// The content of a `call_tool` result (see `spec_tool_content`); a system
/// error when its JSON text is longer than `MAX_TOOL_RESULT_BYTES` bytes.
pub fn call_tool_content(result: &str) -> (r: Result<String, Error>)
    ensures
        ({
            let c = spec_tool_content(result@);
            if utf8_len(c) > MAX_TOOL_RESULT_BYTES {
                r matches Err(Error::System(m)) && m@ == too_large_text(utf8_len(c))
            } else {
                r matches Ok(s) && s@ == c
            }
        }),
{
    let v = parse_json_opt(result);
    let content = match member_of(&v, "content") {
        Some(c) => c,
        None => String::from_str("{}"),
    };
    let c = chars_of(content.as_str());
    let bytes = utf8_length(c.as_slice());
    if bytes > MAX_TOOL_RESULT_BYTES {
        let mut m = chars_of("tool output too large: ");
        extend_all(&mut m, decimal_chars(bytes as u64).as_slice());
        push_str(&mut m, " bytes (cap ");
        extend_all(&mut m, decimal_chars(MAX_TOOL_RESULT_BYTES as u64).as_slice());
        push_str(&mut m, ")");
        return Err(Error::System(string_from_chars(m.as_slice())));
    }
    Ok(content)
}

/// What `String::from_utf8_lossy` gives for some bytes: their text, each
/// invalid sequence replaced by U+FFFD.
pub uninterp spec fn utf8_lossy(b: Seq<u8>) -> Seq<char>;

/// `String::from_utf8_lossy`; the contract names the result, and states
/// what its documentation says of valid UTF-8 (it is the decoded text).
#[verifier::external_body]
fn lossy_text(b: &[u8]) -> (r: String)
    ensures
        r@ == utf8_lossy(b@),
        valid_utf8(b@) ==> r@ == decode_utf8(b@),
{
    String::from_utf8_lossy(b).to_string()
}

/// The last `STDERR_TAIL_MAX_BYTES` bytes of `b` (all of it when shorter).
pub open spec fn keep_tail(b: Seq<u8>) -> Seq<u8> {
    if b.len() > STDERR_TAIL_MAX_BYTES { b.skip(b.len() - STDERR_TAIL_MAX_BYTES) } else { b }
}

/// The end of what a server wrote to its standard error.
pub struct StderrCapture {
    pub tail: Vec<u8>,
}

impl StderrCapture {
    pub fn new() -> (r: StderrCapture)
        ensures r.tail@ == Seq::<u8>::empty(),
    {
        StderrCapture { tail: Vec::new() }
    }

    /// Adds what was written, keeping only the last `STDERR_TAIL_MAX_BYTES`
    /// bytes.
    pub fn push(&mut self, data: &[u8])
        ensures
            final(self).tail@ == if data@.len() == 0 { old(self).tail@ } else { keep_tail(old(self).tail@ + data@) },
    {
        if data.len() == 0 {
            return;
        }
        let mut all: Vec<u8> = Vec::new();
        extend_all(&mut all, self.tail.as_slice());
        extend_all(&mut all, data);
        if all.len() > STDERR_TAIL_MAX_BYTES {
            let from = all.len() - STDERR_TAIL_MAX_BYTES;
            self.tail = crate::text::slice_to_vec(all.as_slice(), from, all.len());
            assert(self.tail@ =~= keep_tail(old(self).tail@ + data@));
        } else {
            self.tail = all;
        }
    }

    /// The kept bytes as text (see `utf8_lossy`).
    pub fn tail_string(&self) -> (r: String)
        ensures r@ == utf8_lossy(self.tail@),
    {
        lossy_text(self.tail.as_slice())
    }

    /// The kept text, unless it is blank.
    pub fn stderr_tail(&self) -> (r: Option<String>)
        ensures
            trim(utf8_lossy(self.tail@)).len() == 0 ==> r is None,
            trim(utf8_lossy(self.tail@)).len() > 0 ==> (r matches Some(s) && s@ == utf8_lossy(self.tail@)),
    {
        let t = self.tail_string();
        let c = chars_of(t.as_str());
        if trim_chars(c.as_slice()).len() == 0 {
            None
        } else {
            Some(t)
        }
    }
}

} // verus!
