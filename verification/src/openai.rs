//! The provider for OpenAI-compatible chat completion endpoints: the request
//! it sends, what it reads from a reply, and how the lines of a streamed
//! reply (server-sent events) become the normalized event stream, tool
//! calls gathered by their index.
//!
//! The HTTP exchange itself happens outside the library; the temperature
//! is carried as the JSON number text the request holds.

use vstd::prelude::*;
use crate::error::Error;
use crate::json::{
    entries_view, set_member, str_lt, get_member, join_commas, json_normal_text, json_parse, json_value, member_of, normalize_json, opt_chars,
    parse_json, parse_json_opt, quote, text_as_array, text_as_str, JsonNode,
};
use crate::logfmt::push_str;
use crate::provider::{event_view, events_view, lit, EventView, FinishReason, LlmEvent, Message, ToolCallSpec, ToolDef};
use crate::text::{chars_of, extend_all, seq_starts_with, slice_to_vec, starts_with, string_from_chars, trim, trim_chars};

verus! {

pub const DEFAULT_BASE_URL: &'static str = "https://api.openai.com/v1";

/// The JSON text of the default temperature, 0.7.
pub const DEFAULT_TEMPERATURE: &'static str = "0.7";

pub const DEFAULT_MODEL: &'static str = "gpt-4o-mini";

/// A provider for one OpenAI-compatible endpoint.
pub struct OpenAiCompatProvider {
    model: String,
    base_url: String,
    api_key_env: Option<String>,
    temperature: String,
}

/// `s` without the `/`s at its end (`str::trim_end_matches('/')`).
pub open spec fn trim_slashes(s: Seq<char>) -> Seq<char>
    decreases s.len(),
{
    if s.len() > 0 && s.last() == '/' { trim_slashes(s.drop_last()) } else { s }
}

impl OpenAiCompatProvider {
    pub closed spec fn spec_model(&self) -> Seq<char> {
        self.model@
    }

    pub closed spec fn spec_base_url(&self) -> Seq<char> {
        self.base_url@
    }

    pub closed spec fn spec_api_key_env(&self) -> Option<Seq<char>> {
        opt_chars(self.api_key_env)
    }

    pub closed spec fn spec_temperature(&self) -> Seq<char> {
        self.temperature@
    }

    /// A provider: the model (default `gpt-4o-mini`), the base URL (default
    /// the OpenAI API) without trailing slashes, the environment variable
    /// that holds the API key (none: no `Authorization` header) and the
    /// temperature's JSON text (default `0.7`).
    pub fn new(model: Option<String>, base_url: Option<String>, api_key_env: Option<String>, temperature: Option<String>) -> (r: Result<OpenAiCompatProvider, Error>)
        ensures
            r matches Ok(p) && p.spec_model() == (match model { Some(m) => m@, None => DEFAULT_MODEL@ })
                && p.spec_base_url() == trim_slashes(match base_url { Some(b) => b@, None => DEFAULT_BASE_URL@ })
                && p.spec_api_key_env() == opt_chars(api_key_env)
                && p.spec_temperature() == (match temperature { Some(t) => t@, None => DEFAULT_TEMPERATURE@ }),
    {
        let model = match model {
            Some(m) => m,
            None => String::from_str(DEFAULT_MODEL),
        };
        let base = match base_url {
            Some(b) => b,
            None => String::from_str(DEFAULT_BASE_URL),
        };
        let temperature = match temperature {
            Some(t) => t,
            None => String::from_str(DEFAULT_TEMPERATURE),
        };
        let c = chars_of(base.as_str());
        let mut n = c.len();
        assert(c@.take(n as int) =~= c@);
        while n > 0 && c[n - 1] == '/'
            invariant
                n <= c@.len(),
                trim_slashes(c@.take(n as int)) == trim_slashes(c@),
            decreases n,
        {
            assert(c@.take(n as int).drop_last() =~= c@.take(n - 1));
            n = n - 1;
        }
        let t = slice_to_vec(c.as_slice(), 0, n);
        assert(t@ =~= c@.take(n as int));
        Ok(OpenAiCompatProvider { model, base_url: string_from_chars(t.as_slice()), api_key_env, temperature })
    }

    pub fn name(&self) -> (r: &'static str)
        ensures r@ == "openai_compat"@,
    {
        "openai_compat"
    }

    /// The endpoint: the base URL and `/chat/completions`.
    pub fn url(&self) -> (r: String)
        ensures r@ == self.spec_base_url() + "/chat/completions"@,
    {
        let mut v = chars_of(self.base_url.as_str());
        push_str(&mut v, "/chat/completions");
        string_from_chars(v.as_slice())
    }

    /// The environment variable that holds the API key.
    pub fn api_key_env(&self) -> (r: Option<String>)
        ensures opt_chars(r) == self.spec_api_key_env(),
    {
        match &self.api_key_env {
            Some(e) => Some(e.clone()),
            None => None,
        }
    }

    pub fn model(&self) -> (r: &String)
        ensures r@ == self.spec_model(),
    {
        &self.model
    }

    pub fn temperature(&self) -> (r: &String)
        ensures r@ == self.spec_temperature(),
    {
        &self.temperature
    }
}

/// The value of an optional JSON text.
pub open spec fn node_of(t: Option<Seq<char>>) -> Option<JsonNode> {
    match t {
        Some(x) => json_value(x),
        None => None,
    }
}

/// The JSON text of an array's first element.
pub open spec fn first_of(n: Option<JsonNode>) -> Option<Seq<char>> {
    match n {
        Some(JsonNode::Array(items)) => if items@.len() > 0 { Some(items@[0]@) } else { None },
        _ => None,
    }
}

/// `v["choices"][0]["message"]`, as JSON text.
pub open spec fn first_message(v: Option<JsonNode>) -> Option<Seq<char>> {
    get_member(node_of(first_of(node_of(get_member(v, "choices"@)))), "message"@)
}

/// The `Authorization` header's value for an API key.
pub fn bearer(key: &str) -> (r: String)
    ensures r@ == "Bearer "@ + key@,
{
    let mut v = chars_of("Bearer ");
    push_str(&mut v, key);
    string_from_chars(v.as_slice())
}

/// The error of a reply that is not a success: the API's own message
/// (`error.message`) when the body carries one, else the status and body.
pub open spec fn chat_error(status: Seq<char>, body: Seq<char>) -> Seq<char> {
    "Chat completions error: "@ + match text_as_str(get_member(node_of(get_member(json_value(body), "error"@)), "message"@)) {
        Some(m) => m,
        None => "HTTP "@ + status + ": "@ + body,
    }
}

fn node_at(t: &Option<String>) -> (r: Option<JsonNode>)
    ensures r == node_of(opt_chars(*t)),
{
    match t {
        Some(x) => parse_json_opt(x.as_str()),
        None => None,
    }
}

fn first_item(n: &Option<JsonNode>) -> (r: Option<String>)
    ensures opt_chars(r) == first_of(*n),
{
    match n {
        Some(JsonNode::Array(items)) => if items.len() > 0 { Some(items[0].clone()) } else { None },
        _ => None,
    }
}

/// The error for a failed exchange (`status` as the HTTP library shows it).
pub fn chat_error_message(status: &str, body: &str) -> (r: Error)
    ensures r matches Error::Http(m) && m@ == chat_error(status@, body@),
{
    let v = parse_json_opt(body);
    let err = node_at(&member_of(&v, "error"));
    let mut out = chars_of("Chat completions error: ");
    match crate::json::as_str_of(&member_of(&err, "message")) {
        Some(m) => push_str(&mut out, m.as_str()),
        None => {
            push_str(&mut out, "HTTP ");
            push_str(&mut out, status);
            push_str(&mut out, ": ");
            push_str(&mut out, body);
        },
    }
    Error::Http(string_from_chars(out.as_slice()))
}

/// What the text of a reply gives: an unreadable reply is a JSON error, a
/// reply with an `error` member is an API error with its message, else the
/// first choice's message content when it is a string.
pub open spec fn spec_response_text(resp: Seq<char>) -> Result<Option<Seq<char>>, (bool, Seq<char>)> {
    match json_parse(resp) {
        Err(e) => Err((true, "Failed to parse response JSON: "@ + e)),
        Ok(v) => match get_member(Some(v), "error"@) {
            Some(err) => Err((false, "API error: "@ + match text_as_str(get_member(json_value(err), "message"@)) {
                Some(m) => m,
                None => "Unknown error"@,
            })),
            None => Ok(text_as_str(get_member(node_of(first_message(Some(v))), "content"@))),
        },
    }
}

/// Whether the first choice's message has a non-empty `tool_calls` array
/// (`None`: the reply is not JSON, with the error text).
pub open spec fn spec_has_tool_calls(resp: Seq<char>) -> Result<bool, Seq<char>> {
    match json_parse(resp) {
        Err(e) => Err("Failed to parse response JSON: "@ + e),
        Ok(v) => Ok(match text_as_array(get_member(node_of(first_message(Some(v))), "tool_calls"@)) {
            Some(items) => items.len() > 0,
            None => false,
        }),
    }
}

fn message_with(prefix: &str, s: &String) -> (r: String)
    ensures r@ == prefix@ + s@,
{
    let mut v = chars_of(prefix);
    push_str(&mut v, s.as_str());
    string_from_chars(v.as_slice())
}

fn first_message_of(v: &Option<JsonNode>) -> (r: Option<JsonNode>)
    ensures r == node_of(first_message(*v)),
{
    let choices = node_at(&member_of(v, "choices"));
    let first = node_at(&first_item(&choices));
    node_at(&member_of(&first, "message"))
}

impl OpenAiCompatProvider {
    /// The text of a (non-streamed) reply; see `spec_response_text` (a JSON
    /// error when the first component is true, else an HTTP error).
    pub fn parse_response_text(&self, response_json: &str) -> (r: Result<Option<String>, Error>)
        ensures
            match spec_response_text(response_json@) {
                Ok(t) => r matches Ok(x) && opt_chars(x) == t,
                Err((true, m)) => r matches Err(Error::Json(x)) && x@ == m,
                Err((false, m)) => r matches Err(Error::Http(x)) && x@ == m,
            },
    {
        match parse_json(response_json) {
            Err(e) => Err(Error::Json(message_with("Failed to parse response JSON: ", &e))),
            Ok(v) => {
                let vo = Some(v);
                match member_of(&vo, "error") {
                    Some(err) => {
                        let msg = match crate::json::as_str_of(&member_of(&parse_json_opt(err.as_str()), "message")) {
                            Some(m) => m,
                            None => String::from_str("Unknown error"),
                        };
                        Err(Error::Http(message_with("API error: ", &msg)))
                    },
                    None => {
                        let m = first_message_of(&vo);
                        Ok(crate::json::as_str_of(&member_of(&m, "content")))
                    },
                }
            },
        }
    }

    /// Whether the reply calls tools; see `spec_has_tool_calls`.
    pub fn check_tool_calls(&self, response_json: &str) -> (r: Result<bool, Error>)
        ensures
            match spec_has_tool_calls(response_json@) {
                Ok(b) => r == Ok::<bool, Error>(b),
                Err(m) => r matches Err(Error::Json(x)) && x@ == m,
            },
    {
        match parse_json(response_json) {
            Err(e) => Err(Error::Json(message_with("Failed to parse response JSON: ", &e))),
            Ok(v) => {
                let m = first_message_of(&Some(v));
                match crate::json::as_array_of(&member_of(&m, "tool_calls")) {
                    Some(items) => Ok(items.len() > 0),
                    None => Ok(false),
                }
            },
        }
    }
}


// ---------------------------------------------------------------------
// The request.

/// A message object of the request: content and role.
pub open spec fn msg_obj(content: Seq<char>, role: Seq<char>) -> Seq<char> {
    "{\"content\":"@ + lit(content) + ",\"role\":"@ + lit(role) + "}"@
}

/// A tool call's arguments as the request carries them: the JSON text as
/// `serde_json` prints it (`{}` when it is not JSON).
pub open spec fn args_text(a: Seq<char>) -> Seq<char> {
    match json_normal_text(a) {
        Some(t) => t,
        None => "{}"@,
    }
}

pub open spec fn tool_call_obj(tc: ToolCallSpec) -> Seq<char> {
    "{\"function\":{\"arguments\":"@ + lit(args_text(tc.args@)) + ",\"name\":"@ + lit(tc.name@) + "},\"id\":"@
        + lit(tc.id@) + ",\"type\":\"function\"}"@
}

pub open spec fn tool_calls_texts(tcs: Seq<ToolCallSpec>) -> Seq<Seq<char>> {
    tcs.map_values(|tc: ToolCallSpec| tool_call_obj(tc))
}

/// A history message in the request: a tool result carries the call it
/// answers, an assistant message the calls it made; every other message is
/// its content and role.
pub open spec fn history_obj(m: Message) -> Seq<char> {
    if m.role@ == "tool"@ {
        "{\"content\":"@ + lit(m.content@) + ",\"role\":\"tool\",\"tool_call_id\":"@
            + lit(match m.tool_call_id { Some(i) => i@, None => seq![] }) + "}"@
    } else if m.role@ == "assistant"@ && m.tool_calls is Some {
        "{\"content\":"@ + lit(m.content@) + ",\"role\":\"assistant\",\"tool_calls\":["@
            + join_commas(tool_calls_texts(m.tool_calls.unwrap()@)) + "]}"@
    } else {
        msg_obj(m.content@, m.role@)
    }
}

/// A tool's parameters as the request carries them: the schema as
/// `serde_json` prints it (`null` when it is not JSON).
pub open spec fn param_text(p: Seq<char>) -> Seq<char> {
    match json_normal_text(p) {
        Some(t) => t,
        None => "null"@,
    }
}

pub open spec fn tool_obj(d: ToolDef) -> Seq<char> {
    "{\"function\":{\"description\":"@ + lit(d.description@) + ",\"name\":"@ + lit(d.name@) + ",\"parameters\":"@
        + param_text(d.parameters@) + "},\"type\":\"function\"}"@
}

/// The request's messages: the system instruction, the history, then the query.
pub open spec fn payload_messages(system: Option<Seq<char>>, history: Seq<Message>, query: Seq<char>) -> Seq<Seq<char>> {
    (match system {
        Some(s) => seq![msg_obj(s, "system"@)],
        None => seq![],
    }) + history.map_values(|m: Message| history_obj(m)) + seq![msg_obj(query, "user"@)]
}

/// The tools part of the request: present when there are tools.
pub open spec fn tools_part(tools: Option<Seq<ToolDef>>) -> Seq<char> {
    match tools {
        Some(ds) => if ds.len() > 0 {
            ",\"tool_choice\":\"auto\",\"tools\":["@ + join_commas(ds.map_values(|d: ToolDef| tool_obj(d))) + "]"@
        } else {
            seq![]
        },
        None => seq![],
    }
}

/// The request, as `serde_json` prints it (members in key order).
pub open spec fn spec_openai_payload(
    model: Seq<char>,
    temperature: Seq<char>,
    system: Option<Seq<char>>,
    history: Seq<Message>,
    query: Seq<char>,
    tools: Option<Seq<ToolDef>>,
) -> Seq<char> {
    "{\"messages\":["@ + join_commas(payload_messages(system, history, query)) + "],\"model\":"@ + lit(model)
        + ",\"stream\":false,\"temperature\":"@ + temperature + tools_part(tools) + "}"@
}

fn is_text(s: &String, lit: &str) -> (r: bool)
    ensures r == (s@ == lit@),
{
    *s == String::from_str(lit)
}

fn push_lit(v: &mut Vec<char>, s: &str)
    ensures final(v)@ == old(v)@ + lit(s@),
{
    let q = quote(s);
    push_str(v, q.as_str());
}

fn msg_obj_exec(content: &str, role: &str) -> (r: String)
    ensures r@ == msg_obj(content@, role@),
{
    let mut v = chars_of("{\"content\":");
    push_lit(&mut v, content);
    push_str(&mut v, ",\"role\":");
    push_lit(&mut v, role);
    push_str(&mut v, "}");
    string_from_chars(v.as_slice())
}

fn tool_call_obj_exec(tc: &ToolCallSpec) -> (r: String)
    ensures r@ == tool_call_obj(*tc),
{
    let args = match normalize_json(tc.args.as_str()) {
        Some(t) => t,
        None => String::from_str("{}"),
    };
    let mut v = chars_of("{\"function\":{\"arguments\":");
    push_lit(&mut v, args.as_str());
    push_str(&mut v, ",\"name\":");
    push_lit(&mut v, tc.name.as_str());
    push_str(&mut v, "},\"id\":");
    push_lit(&mut v, tc.id.as_str());
    push_str(&mut v, ",\"type\":\"function\"}");
    string_from_chars(v.as_slice())
}

fn history_obj_exec(m: &Message) -> (r: String)
    ensures r@ == history_obj(*m),
{
    if is_text(&m.role, "tool") {
        let mut v = chars_of("{\"content\":");
        push_lit(&mut v, m.content.as_str());
        push_str(&mut v, ",\"role\":\"tool\",\"tool_call_id\":");
        match &m.tool_call_id {
            Some(i) => push_lit(&mut v, i.as_str()),
            None => {
                proof { reveal_strlit(""); }
                assert(""@ =~= Seq::<char>::empty());
                push_lit(&mut v, "");
            },
        }
        push_str(&mut v, "}");
        string_from_chars(v.as_slice())
    } else if is_text(&m.role, "assistant") && m.tool_calls.is_some() {
        let tcs = match &m.tool_calls {
            Some(t) => t,
            None => { return msg_obj_exec(m.content.as_str(), m.role.as_str()); },
        };
        let mut texts: Vec<String> = Vec::new();
        let mut i: usize = 0;
        while i < tcs.len()
            invariant
                i <= tcs@.len(),
                texts@.map_values(|e: String| e@) =~= tool_calls_texts(tcs@.take(i as int)),
            decreases tcs.len() - i,
        {
            let t = tool_call_obj_exec(&tcs[i]);
            let ghost before = texts@;
            texts.push(t);
            proof {
                assert(tcs@.take(i + 1).drop_last() =~= tcs@.take(i as int));
                assert(texts@.map_values(|e: String| e@) =~= before.map_values(|e: String| e@).push(t@));
                assert(tool_calls_texts(tcs@.take(i + 1)) =~= tool_calls_texts(tcs@.take(i as int)).push(tool_call_obj(tcs@[i as int])));
            }
            i = i + 1;
        }
        assert(tcs@.take(tcs@.len() as int) =~= tcs@);
        let mut v = chars_of("{\"content\":");
        push_lit(&mut v, m.content.as_str());
        push_str(&mut v, ",\"role\":\"assistant\",\"tool_calls\":[");
        crate::json::push_joined(&mut v, &texts);
        push_str(&mut v, "]}");
        string_from_chars(v.as_slice())
    } else {
        msg_obj_exec(m.content.as_str(), m.role.as_str())
    }
}

fn tool_obj_exec(d: &ToolDef) -> (r: String)
    ensures r@ == tool_obj(*d),
{
    let params = match normalize_json(d.parameters.as_str()) {
        Some(t) => t,
        None => String::from_str("null"),
    };
    let mut v = chars_of("{\"function\":{\"description\":");
    push_lit(&mut v, d.description.as_str());
    push_str(&mut v, ",\"name\":");
    push_lit(&mut v, d.name.as_str());
    push_str(&mut v, ",\"parameters\":");
    push_str(&mut v, params.as_str());
    push_str(&mut v, "},\"type\":\"function\"}");
    string_from_chars(v.as_slice())
}

impl OpenAiCompatProvider {
    /// The request for a query (see `spec_openai_payload`); never an error.
    pub fn make_request_payload(
        &self,
        query: &str,
        system_instruction: Option<&str>,
        history: &[Message],
        tools: Option<&[ToolDef]>,
    ) -> (r: Result<String, Error>)
        ensures
            r matches Ok(p) && p@ == spec_openai_payload(
                self.spec_model(),
                self.spec_temperature(),
                match system_instruction { Some(s) => Some(s@), None => None },
                history@,
                query@,
                match tools { Some(t) => Some(t@), None => None },
            ),
    {
        let ghost sys = match system_instruction { Some(s) => Some(s@), None => None };
        let mut msgs: Vec<String> = Vec::new();
        match system_instruction {
            Some(s) => msgs.push(msg_obj_exec(s, "system")),
            None => {},
        }
        let ghost head = msgs@.map_values(|e: String| e@);
        assert(head =~= (match sys { Some(s) => seq![msg_obj(s, "system"@)], None => Seq::<Seq<char>>::empty() }));
        let mut i: usize = 0;
        while i < history.len()
            invariant
                i <= history@.len(),
                msgs@.map_values(|e: String| e@) =~= head + history@.take(i as int).map_values(|m: Message| history_obj(m)),
            decreases history.len() - i,
        {
            let t = history_obj_exec(&history[i]);
            let ghost before = msgs@;
            msgs.push(t);
            proof {
                assert(history@.take(i + 1).drop_last() =~= history@.take(i as int));
                assert(msgs@.map_values(|e: String| e@) =~= before.map_values(|e: String| e@).push(t@));
                assert(history@.take(i + 1).map_values(|m: Message| history_obj(m))
                    =~= history@.take(i as int).map_values(|m: Message| history_obj(m)).push(history_obj(history@[i as int])));
            }
            i = i + 1;
        }
        assert(history@.take(history@.len() as int) =~= history@);
        let last = msg_obj_exec(query, "user");
        let ghost before = msgs@;
        msgs.push(last);
        assert(msgs@.map_values(|e: String| e@) =~= before.map_values(|e: String| e@).push(last@));
        assert(msgs@.map_values(|e: String| e@) =~= payload_messages(sys, history@, query@));
        let mut v = chars_of("{\"messages\":[");
        crate::json::push_joined(&mut v, &msgs);
        push_str(&mut v, "],\"model\":");
        push_lit(&mut v, self.model.as_str());
        push_str(&mut v, ",\"stream\":false,\"temperature\":");
        push_str(&mut v, self.temperature.as_str());
        let ghost t0 = v@;
        match tools {
            Some(ds) => {
                if ds.len() > 0 {
                    let mut texts: Vec<String> = Vec::new();
                    let mut k: usize = 0;
                    while k < ds.len()
                        invariant
                            k <= ds@.len(),
                            texts@.map_values(|e: String| e@) =~= ds@.take(k as int).map_values(|d: ToolDef| tool_obj(d)),
                        decreases ds.len() - k,
                    {
                        let t = tool_obj_exec(&ds[k]);
                        let ghost before = texts@;
                        texts.push(t);
                        proof {
                            assert(ds@.take(k + 1).drop_last() =~= ds@.take(k as int));
                            assert(texts@.map_values(|e: String| e@) =~= before.map_values(|e: String| e@).push(t@));
                            assert(ds@.take(k + 1).map_values(|d: ToolDef| tool_obj(d))
                                =~= ds@.take(k as int).map_values(|d: ToolDef| tool_obj(d)).push(tool_obj(ds@[k as int])));
                        }
                        k = k + 1;
                    }
                    assert(ds@.take(ds@.len() as int) =~= ds@);
                    push_str(&mut v, ",\"tool_choice\":\"auto\",\"tools\":[");
                    crate::json::push_joined(&mut v, &texts);
                    push_str(&mut v, "]");
                }
            },
            None => {},
        }
        assert(v@ =~= t0 + tools_part(match tools { Some(t) => Some(t@), None => None }));
        push_str(&mut v, "}");
        Ok(string_from_chars(v.as_slice()))
    }
}

// ---------------------------------------------------------------------
// The streamed request.

pub open spec fn object_text(es: Seq<(Seq<char>, Seq<char>)>) -> Seq<char> {
    "{"@ + join_commas(es.map_values(|e: (Seq<char>, Seq<char>)| lit(e.0) + ":"@ + e.1)) + "}"@
}

/// Whether `stream` can be set on the request: it holds an object or null
/// (setting a member of any other value panics in `serde_json`).
pub open spec fn streamable(request: Seq<char>) -> bool {
    match json_value(request) {
        Some(JsonNode::Object(_)) => true,
        Some(JsonNode::Null) => true,
        Some(_) => false,
        None => true,
    }
}

/// The body of a streamed exchange: the request with `stream` set to true,
/// as `serde_json` prints it; an unreadable request is a JSON error.
pub open spec fn spec_streaming_body(request: Seq<char>) -> Result<Seq<char>, Seq<char>> {
    match json_parse(request) {
        Err(e) => Err("Failed to parse request JSON: "@ + e),
        Ok(JsonNode::Object(es)) => Ok(object_text(set_member(entries_view(es@), "stream"@, "true"@))),
        Ok(_) => Ok("{\"stream\":true}"@),
    }
}

fn entries_to_text(es: &Vec<(String, String)>) -> (r: Vec<char>)
    ensures r@ == object_text(entries_view(es@)),
{
    let mut texts: Vec<String> = Vec::new();
    let mut i: usize = 0;
    let ghost ev = entries_view(es@);
    while i < es.len()
        invariant
            i <= es@.len(),
            ev == entries_view(es@),
            texts@.map_values(|e: String| e@) =~= ev.take(i as int).map_values(|e: (Seq<char>, Seq<char>)| lit(e.0) + ":"@ + e.1),
        decreases es.len() - i,
    {
        let mut v: Vec<char> = Vec::new();
        push_lit(&mut v, es[i].0.as_str());
        push_str(&mut v, ":");
        push_str(&mut v, es[i].1.as_str());
        let t = string_from_chars(v.as_slice());
        let ghost before = texts@;
        texts.push(t);
        proof {
            assert(ev[i as int] == (es@[i as int].0@, es@[i as int].1@));
            assert(ev.take(i + 1).drop_last() =~= ev.take(i as int));
            assert(texts@.map_values(|e: String| e@) =~= before.map_values(|e: String| e@).push(t@));
            assert(ev.take(i + 1).map_values(|e: (Seq<char>, Seq<char>)| lit(e.0) + ":"@ + e.1)
                =~= ev.take(i as int).map_values(|e: (Seq<char>, Seq<char>)| lit(e.0) + ":"@ + e.1).push(t@));
        }
        i = i + 1;
    }
    assert(ev.take(ev.len() as int) =~= ev);
    let mut out = chars_of("{");
    crate::json::push_joined(&mut out, &texts);
    push_str(&mut out, "}");
    out
}

impl OpenAiCompatProvider {
    /// The body of a streamed exchange (see `spec_streaming_body`).
    pub fn streaming_body(&self, request_json: &str) -> (r: Result<String, Error>)
        requires
            streamable(request_json@),
        ensures
            match spec_streaming_body(request_json@) {
                Ok(b) => r matches Ok(x) && x@ == b,
                Err(m) => r matches Err(Error::Json(x)) && x@ == m,
            },
    {
        match parse_json(request_json) {
            Err(e) => Err(Error::Json(message_with("Failed to parse request JSON: ", &e))),
            Ok(JsonNode::Object(es)) => {
                let mut es = es;
                crate::json::set_entry(&mut es, String::from_str("stream"), String::from_str("true"));
                let text = entries_to_text(&es);
                Ok(string_from_chars(text.as_slice()))
            },
            Ok(_) => Ok(String::from_str("{\"stream\":true}")),
        }
    }

    /// The body of a streamed exchange for any request: `None` where the
    /// request holds a value on which `stream` cannot be set (see
    /// `streamable`), else what `streaming_body` gives.
    pub fn try_streaming_body(&self, request_json: &str) -> (r: Option<Result<String, Error>>)
        ensures
            !streamable(request_json@) ==> r is None,
            streamable(request_json@) ==> match spec_streaming_body(request_json@) {
                Ok(b) => r matches Some(Ok(x)) && x@ == b,
                Err(m) => r matches Some(Err(Error::Json(x))) && x@ == m,
            },
    {
        match parse_json_opt(request_json) {
            Some(JsonNode::Object(_)) | Some(JsonNode::Null) | None => Some(self.streaming_body(request_json)),
            Some(_) => None,
        }
    }
}

// ---------------------------------------------------------------------
// The streamed reply.

/// The data of a server-sent event line (`data: ...`), trimmed.
pub open spec fn sse_data(line: Seq<char>) -> Option<Seq<char>> {
    if seq_starts_with(line, "data: "@) {
        Some(trim(line.skip("data: "@.len() as int)))
    } else {
        None
    }
}

/// `v["choices"][0]["delta"]` of an event's data.
pub open spec fn delta_of(v: Option<JsonNode>) -> Option<JsonNode> {
    node_of(get_member(node_of(first_of(node_of(get_member(v, "choices"@)))), "delta"@))
}

/// A string member that is not empty.
pub open spec fn nonempty_str(n: Option<JsonNode>, key: Seq<char>) -> Option<Seq<char>> {
    match text_as_str(get_member(n, key)) {
        Some(s) => if s.len() > 0 { Some(s) } else { None },
        None => None,
    }
}

/// The event of one content part: its text, as reasoning when the part's
/// type says so.
pub open spec fn part_events(p: Seq<char>) -> Seq<EventView> {
    let n = json_value(p);
    match nonempty_str(n, "text"@) {
        Some(t) => if text_as_str(get_member(n, "type"@)) == Some("reasoning"@) {
            seq![EventView::Reasoning(t)]
        } else {
            seq![EventView::Text(t)]
        },
        None => seq![],
    }
}

pub open spec fn parts_events(parts: Seq<Seq<char>>) -> Seq<EventView>
    decreases parts.len(),
{
    if parts.len() == 0 {
        seq![]
    } else {
        parts_events(parts.drop_last()) + part_events(parts.last())
    }
}

/// The text of a delta: its `content` string, or the texts of its content
/// parts; then its `reasoning_content`.
pub open spec fn delta_text_events(d: Option<JsonNode>) -> Seq<EventView> {
    let c = get_member(d, "content"@);
    (match text_as_str(c) {
        Some(s) => if s.len() > 0 { seq![EventView::Text(s)] } else { seq![] },
        None => match text_as_array(c) {
            Some(parts) => parts_events(parts),
            None => seq![],
        },
    }) + match nonempty_str(d, "reasoning_content"@) {
        Some(s) => seq![EventView::Reasoning(s)],
        None => seq![],
    }
}

/// `serde_json::Value::as_u64` of a number, by its printed text.
pub open spec fn number_u64(n: Option<JsonNode>) -> Option<u64> {
    match n {
        Some(JsonNode::Number(t)) => match crate::text::parse_unsigned_upto(t@, u64::MAX as nat) {
            Some(v) => Some(v as u64),
            None => None,
        },
        _ => None,
    }
}

/// Sets the value for key `k` in a list kept in key order.
pub open spec fn put<V>(s: Seq<(u64, V)>, k: u64, v: V) -> Seq<(u64, V)>
    decreases s.len(),
{
    if s.len() == 0 {
        seq![(k, v)]
    } else if s[0].0 == k {
        seq![(k, v)] + s.drop_first()
    } else if k < s[0].0 {
        seq![(k, v)] + s
    } else {
        seq![s[0]] + put(s.drop_first(), k, v)
    }
}

/// The value for key `k`.
pub open spec fn get_key<V>(s: Seq<(u64, V)>, k: u64) -> Option<V>
    decreases s.len(),
{
    if s.len() == 0 {
        None
    } else if s[0].0 == k {
        Some(s[0].1)
    } else {
        get_key(s.drop_first(), k)
    }
}

/// The keys strictly increase.
pub open spec fn key_sorted<V>(s: Seq<(u64, V)>) -> bool {
    forall|i: int, j: int| 0 <= i < j < s.len() ==> s[i].0 < s[j].0
}

/// The tool calls of a stream so far: by index, the call's id and name,
/// and the arguments gathered; whether any call began.
pub struct CallsView {
    pub calls: Seq<(u64, (Seq<char>, Seq<char>))>,
    pub args: Seq<(u64, Seq<char>)>,
    pub had_tool_calls: bool,
}

/// One element of a delta's `tool_calls`: a call begins when it has an
/// id (its arguments start over), and argument text is added to the call
/// with its index.
pub open spec fn tool_call_step(st: CallsView, tc: Seq<char>) -> (CallsView, Seq<EventView>) {
    let n = json_value(tc);
    let index = match number_u64(node_of(get_member(n, "index"@))) {
        Some(i) => i,
        None => 0,
    };
    let f = node_of(get_member(n, "function"@));
    let (st1, ev) = match text_as_str(get_member(n, "id"@)) {
        Some(id) => {
            let name = match text_as_str(get_member(f, "name"@)) {
                Some(x) => x,
                None => seq![],
            };
            (CallsView {
                calls: put(st.calls, index, (id, name)),
                args: put(st.args, index, seq![]),
                had_tool_calls: true,
            }, seq![EventView::Begin(id, name, None)])
        },
        None => (st, seq![]),
    };
    match nonempty_str(f, "arguments"@) {
        Some(a) => (CallsView {
            args: put(st1.args, index, match get_key(st1.args, index) { Some(p) => p + a, None => a }),
            ..st1
        }, ev),
        None => (st1, ev),
    }
}

pub open spec fn tool_calls_steps(st: CallsView, tcs: Seq<Seq<char>>) -> (CallsView, Seq<EventView>)
    decreases tcs.len(),
{
    if tcs.len() == 0 {
        (st, seq![])
    } else {
        let (s1, e1) = tool_calls_steps(st, tcs.drop_last());
        let (s2, e2) = tool_call_step(s1, tcs.last());
        (s2, e1 + e2)
    }
}

/// One line of the streamed reply: `None` when it ends the stream
/// (`data: [DONE]`), else the calls after it and the events it gives.
pub open spec fn sse_line_step(st: CallsView, line: Seq<char>) -> Option<(CallsView, Seq<EventView>)> {
    match sse_data(line) {
        None => Some((st, seq![])),
        Some(data) => if data == "[DONE]"@ {
            None
        } else {
            match json_value(data) {
                None => Some((st, seq![])),
                Some(v) => {
                    let d = delta_of(Some(v));
                    let text = delta_text_events(d);
                    match text_as_array(get_member(d, "tool_calls"@)) {
                        Some(tcs) => {
                            let (s2, e2) = tool_calls_steps(st, tcs);
                            Some((s2, text + e2))
                        },
                        None => Some((st, text)),
                    }
                },
            }
        },
    }
}

/// The events that close a stream: for each call, by index, its arguments
/// (when they are not blank) and its end; then the finish reason.
pub open spec fn closing_events(calls: Seq<(u64, (Seq<char>, Seq<char>))>, args: Seq<(u64, Seq<char>)>) -> Seq<EventView>
    decreases calls.len(),
{
    if calls.len() == 0 {
        seq![]
    } else {
        let (k, (id, _)) = calls.last();
        closing_events(calls.drop_last(), args) + (match get_key(args, k) {
            Some(a) => if trim(a).len() > 0 { seq![EventView::Args(id, a)] } else { seq![] },
            None => seq![],
        }) + seq![EventView::End(id)]
    }
}

pub open spec fn spec_finish(st: CallsView) -> Seq<EventView> {
    closing_events(st.calls, st.args) + seq![EventView::Done(if st.had_tool_calls { FinishReason::ToolCalls } else { FinishReason::Stop })]
}

/// Where `put` changes the list: the first entry whose key is not below `k`.
pub proof fn lemma_put_at<V>(s: Seq<(u64, V)>, k: u64, v: V, j: int)
    requires
        0 <= j <= s.len(),
        forall|i: int| 0 <= i < j ==> (#[trigger] s[i]).0 < k,
        j == s.len() || s[j].0 >= k,
    ensures
        put(s, k, v) == s.take(j) + seq![(k, v)] + (if j < s.len() && s[j].0 == k { s.skip(j + 1) } else { s.skip(j) }),
    decreases j,
{
    if j == 0 {
        assert(s.take(0) =~= Seq::<(u64, V)>::empty());
        assert(s.skip(0) =~= s);
        if s.len() > 0 && s[0].0 == k {
            assert(s.skip(1) =~= s.drop_first());
        }
    } else {
        let t = s.drop_first();
        assert forall|i: int| 0 <= i < j - 1 implies (#[trigger] t[i]).0 < k by {
            assert(t[i] == s[i + 1]);
        }
        if j - 1 < t.len() {
            assert(t[j - 1] == s[j]);
        }
        lemma_put_at(t, k, v, j - 1);
        assert(s[0].0 < k);
        assert(s.take(j) =~= seq![s[0]] + t.take(j - 1));
        assert(s.skip(j) =~= t.skip(j - 1));
        if j < s.len() {
            assert(s.skip(j + 1) =~= t.skip(j));
        }
    }
}

/// `put` keeps the keys strictly increasing.
pub proof fn lemma_put_sorted<V>(s: Seq<(u64, V)>, k: u64, v: V)
    requires key_sorted(s),
    ensures
        key_sorted(put(s, k, v)),
        forall|i: int| 0 <= i < put(s, k, v).len() ==> (#[trigger] put(s, k, v)[i]).0 == k || exists|j: int| 0 <= j < s.len() && s[j].0 == put(s, k, v)[i].0,
    decreases s.len(),
{
    if s.len() > 0 && s[0].0 != k && !(k < s[0].0) {
        let t = s.drop_first();
        assert(key_sorted(t)) by {
            assert forall|i: int, j: int| 0 <= i < j < t.len() implies t[i].0 < t[j].0 by {
                assert(t[i] == s[i + 1] && t[j] == s[j + 1]);
            }
        }
        lemma_put_sorted(t, k, v);
        let p = put(t, k, v);
        assert forall|i: int| 0 <= i < p.len() implies (#[trigger] p[i]).0 > s[0].0 by {
            if p[i].0 != k {
                let j = choose|j: int| 0 <= j < t.len() && t[j].0 == p[i].0;
                assert(t[j] == s[j + 1]);
            }
        }
        assert forall|i: int| 0 <= i < put(s, k, v).len() implies (#[trigger] put(s, k, v)[i]).0 == k || exists|j: int| 0 <= j < s.len() && s[j].0 == put(s, k, v)[i].0 by {
            if i == 0 {
                assert(s[0].0 == put(s, k, v)[0].0);
            } else {
                assert(put(s, k, v)[i] == p[i - 1]);
                if p[i - 1].0 != k {
                    let j = choose|j: int| 0 <= j < t.len() && t[j].0 == p[i - 1].0;
                    assert(t[j] == s[j + 1]);
                }
            }
        }
    } else if s.len() > 0 && s[0].0 == k {
        assert forall|i: int| 0 <= i < put(s, k, v).len() implies (#[trigger] put(s, k, v)[i]).0 == k || exists|j: int| 0 <= j < s.len() && s[j].0 == put(s, k, v)[i].0 by {
            if i > 0 {
                assert(put(s, k, v)[i] == s[i]);
            }
        }
    } else if s.len() > 0 {
        assert forall|i: int| 0 <= i < put(s, k, v).len() implies (#[trigger] put(s, k, v)[i]).0 == k || exists|j: int| 0 <= j < s.len() && s[j].0 == put(s, k, v)[i].0 by {
            if i > 0 {
                assert(put(s, k, v)[i] == s[i - 1]);
            }
        }
    }
}

/// The calls of a stream, kept by index in increasing order.
pub struct SseStream {
    calls: Vec<(u64, String, String)>,
    args: Vec<(u64, String)>,
    had_tool_calls: bool,
}

pub open spec fn calls_seq(v: Seq<(u64, String, String)>) -> Seq<(u64, (Seq<char>, Seq<char>))> {
    v.map_values(|c: (u64, String, String)| (c.0, (c.1@, c.2@)))
}

pub open spec fn args_seq(v: Seq<(u64, String)>) -> Seq<(u64, Seq<char>)> {
    v.map_values(|a: (u64, String)| (a.0, a.1@))
}

fn put_call(v: &mut Vec<(u64, String, String)>, k: u64, id: String, name: String)
    ensures calls_seq(final(v)@) == put(calls_seq(old(v)@), k, (id@, name@)),
{
    let ghost s = calls_seq(v@);
    let mut j: usize = 0;
    while j < v.len() && v[j].0 < k
        invariant
            j <= v@.len(),
            s == calls_seq(v@),
            forall|i: int| 0 <= i < j ==> (#[trigger] s[i]).0 < k,
        decreases v.len() - j,
    {
        j = j + 1;
    }
    proof { lemma_put_at(s, k, (id@, name@), j as int); }
    let replace = j < v.len() && v[j].0 == k;
    if replace {
        v.remove(j);
    }
    v.insert(j, (k, id, name));
    proof {
        let rest = if replace { s.skip(j + 1) } else { s.skip(j as int) };
        assert(calls_seq(v@) =~= s.take(j as int) + seq![(k, (id@, name@))] + rest);
    }
}

fn put_args(v: &mut Vec<(u64, String)>, k: u64, a: String)
    ensures args_seq(final(v)@) == put(args_seq(old(v)@), k, a@),
{
    let ghost s = args_seq(v@);
    let mut j: usize = 0;
    while j < v.len() && v[j].0 < k
        invariant
            j <= v@.len(),
            s == args_seq(v@),
            forall|i: int| 0 <= i < j ==> (#[trigger] s[i]).0 < k,
        decreases v.len() - j,
    {
        j = j + 1;
    }
    proof { lemma_put_at(s, k, a@, j as int); }
    let replace = j < v.len() && v[j].0 == k;
    if replace {
        v.remove(j);
    }
    v.insert(j, (k, a));
    proof {
        let rest = if replace { s.skip(j + 1) } else { s.skip(j as int) };
        assert(args_seq(v@) =~= s.take(j as int) + seq![(k, a@)] + rest);
    }
}

fn args_of(v: &Vec<(u64, String)>, k: u64) -> (r: Option<String>)
    ensures opt_chars(r) == get_key(args_seq(v@), k),
{
    let ghost s = args_seq(v@);
    let mut j: usize = 0;
    assert(s.skip(0) =~= s);
    while j < v.len()
        invariant
            j <= v@.len(),
            s == args_seq(v@),
            get_key(s.skip(j as int), k) == get_key(s, k),
        decreases v.len() - j,
    {
        assert(s.skip(j as int)[0] == (v@[j as int].0, v@[j as int].1@));
        if v[j].0 == k {
            return Some(v[j].1.clone());
        }
        assert(s.skip(j as int).drop_first() =~= s.skip(j + 1));
        j = j + 1;
    }
    None
}

fn nonempty_str_exec(n: &Option<JsonNode>, key: &str) -> (r: Option<String>)
    ensures opt_chars(r) == nonempty_str(*n, key@),
{
    match crate::json::as_str_of(&member_of(n, key)) {
        Some(s) => if !s.as_str().is_empty() { Some(s) } else { None },
        None => None,
    }
}

fn number_u64_exec(n: &Option<JsonNode>) -> (r: Option<u64>)
    ensures r == number_u64(*n),
{
    match n {
        Some(JsonNode::Number(t)) => {
            let c = chars_of(t.as_str());
            crate::text::parse_unsigned_chars(c.as_slice(), u64::MAX)
        },
        _ => None,
    }
}

fn part_events_exec(p: &String, out: &mut Vec<LlmEvent>)
    ensures events_view(final(out)@) == events_view(old(out)@) + part_events(p@),
{
    let n = parse_json_opt(p.as_str());
    match nonempty_str_exec(&n, "text") {
        Some(t) => {
            let ty = crate::json::as_str_of(&member_of(&n, "type"));
            let reasoning = match &ty {
                Some(x) => is_text(x, "reasoning"),
                None => false,
            };
            let ghost before = out@;
            if reasoning {
                out.push(LlmEvent::ReasoningDelta(t));
            } else {
                out.push(LlmEvent::TextDelta(t));
            }
            proof {
                assert(opt_chars(ty) == text_as_str(get_member(n, "type"@)));
                assert(events_view(out@) =~= events_view(before).push(event_view(out@.last())));
            }
        },
        None => {},
    }
}

fn delta_text_events_exec(d: &Option<JsonNode>, out: &mut Vec<LlmEvent>)
    ensures events_view(final(out)@) == events_view(old(out)@) + delta_text_events(*d),
{
    let ghost o = events_view(out@);
    let c = member_of(d, "content");
    match crate::json::as_str_of(&c) {
        Some(s) => {
            if !s.as_str().is_empty() {
                let ghost before = out@;
                out.push(LlmEvent::TextDelta(s));
                assert(events_view(out@) =~= events_view(before).push(event_view(out@.last())));
            }
        },
        None => match crate::json::as_array_of(&c) {
            Some(parts) => {
                let mut i: usize = 0;
                let ghost pv = parts@.map_values(|e: String| e@);
                assert(pv.take(0) =~= Seq::<Seq<char>>::empty());
                while i < parts.len()
                    invariant
                        i <= parts@.len(),
                        pv == parts@.map_values(|e: String| e@),
                        events_view(out@) == o + parts_events(pv.take(i as int)),
                    decreases parts.len() - i,
                {
                    part_events_exec(&parts[i], out);
                    proof {
                        assert(pv.take(i + 1).drop_last() =~= pv.take(i as int));
                        assert(pv.take(i + 1).last() == parts@[i as int]@);
                    }
                    i = i + 1;
                }
                assert(pv.take(pv.len() as int) =~= pv);
            },
            None => {},
        },
    }
    let ghost mid = events_view(out@);
    match nonempty_str_exec(d, "reasoning_content") {
        Some(s) => {
            let ghost before = out@;
            out.push(LlmEvent::ReasoningDelta(s));
            assert(events_view(out@) =~= events_view(before).push(event_view(out@.last())));
        },
        None => {},
    }
}

impl SseStream {
    pub closed spec fn view_calls(&self) -> CallsView {
        CallsView { calls: calls_seq(self.calls@), args: args_seq(self.args@), had_tool_calls: self.had_tool_calls }
    }

    pub closed spec fn wf(&self) -> bool {
        key_sorted(calls_seq(self.calls@)) && key_sorted(args_seq(self.args@))
    }

    /// A stream before its first line.
    pub fn new() -> (r: SseStream)
        ensures
            r.wf(),
            r.view_calls().calls.len() == 0,
            r.view_calls().args.len() == 0,
            !r.view_calls().had_tool_calls,
    {
        let r = SseStream { calls: Vec::new(), args: Vec::new(), had_tool_calls: false };
        assert(calls_seq(r.calls@) =~= Seq::<(u64, (Seq<char>, Seq<char>))>::empty());
        assert(args_seq(r.args@) =~= Seq::<(u64, Seq<char>)>::empty());
        r
    }

    fn tool_call(&mut self, tc: &String, out: &mut Vec<LlmEvent>)
        requires old(self).wf(),
        ensures
            final(self).wf(),
            final(self).view_calls() == tool_call_step(old(self).view_calls(), tc@).0,
            events_view(final(out)@) == events_view(old(out)@) + tool_call_step(old(self).view_calls(), tc@).1,
    {
        let n = parse_json_opt(tc.as_str());
        let index = match number_u64_exec(&node_at(&member_of(&n, "index"))) {
            Some(i) => i,
            None => 0,
        };
        let f = node_at(&member_of(&n, "function"));
        match crate::json::as_str_of(&member_of(&n, "id")) {
            Some(id) => {
                let name = match crate::json::as_str_of(&member_of(&f, "name")) {
                    Some(x) => x,
                    None => String::new(),
                };
                proof {
                    lemma_put_sorted(calls_seq(self.calls@), index, (id@, name@));
                    lemma_put_sorted(args_seq(self.args@), index, Seq::<char>::empty());
                }
                put_call(&mut self.calls, index, id.clone(), name.clone());
                put_args(&mut self.args, index, String::new());
                self.had_tool_calls = true;
                let ghost before = out@;
                out.push(LlmEvent::ToolCallBegin { call_id: id, name, thought_signature: None });
                assert(events_view(out@) =~= events_view(before).push(event_view(out@.last())));
            },
            None => {},
        }
        match nonempty_str_exec(&f, "arguments") {
            Some(a) => {
                let prev = args_of(&self.args, index);
                let joined = match prev {
                    Some(p) => {
                        let mut v = chars_of(p.as_str());
                        push_str(&mut v, a.as_str());
                        string_from_chars(v.as_slice())
                    },
                    None => a,
                };
                proof { lemma_put_sorted(args_seq(self.args@), index, joined@); }
                put_args(&mut self.args, index, joined);
            },
            None => {},
        }
    }

    /// Takes one line of the streamed reply: `None` when the line ends the
    /// stream, else the events it gives (see `sse_line_step`).
    pub fn on_line(&mut self, line: &str) -> (r: Option<Vec<LlmEvent>>)
        requires old(self).wf(),
        ensures
            final(self).wf(),
            match sse_line_step(old(self).view_calls(), line@) {
                None => r is None && final(self).view_calls() == old(self).view_calls(),
                Some((st, ev)) => r matches Some(v) && events_view(v@) == ev && final(self).view_calls() == st,
            },
    {
        let c = chars_of(line);
        let prefix = chars_of("data: ");
        let mut out: Vec<LlmEvent> = Vec::new();
        assert(events_view(out@) =~= Seq::<EventView>::empty());
        if !starts_with(c.as_slice(), prefix.as_slice()) {
            return Some(out);
        }
        let data = trim_chars(slice_to_vec(c.as_slice(), prefix.len(), c.len()).as_slice());
        assert(data@ == trim(line@.skip("data: "@.len() as int)));
        let done = chars_of("[DONE]");
        if data.len() == done.len() && starts_with(data.as_slice(), done.as_slice()) {
            assert(data@ =~= "[DONE]"@);
            return None;
        }
        proof {
            if data@ == "[DONE]"@ {
                assert(data@.take(done@.len() as int) =~= data@);
            }
        }
        let text = string_from_chars(data.as_slice());
        let v = parse_json_opt(text.as_str());
        match v {
            None => Some(out),
            Some(_) => {
                let choices = node_at(&member_of(&v, "choices"));
                let first = node_at(&first_item(&choices));
                let d = node_at(&member_of(&first, "delta"));
                delta_text_events_exec(&d, &mut out);
                match crate::json::as_array_of(&member_of(&d, "tool_calls")) {
                    Some(tcs) => {
                        let ghost tv = tcs@.map_values(|e: String| e@);
                        let ghost st0 = self.view_calls();
                        let ghost e0 = events_view(out@);
                        let mut i: usize = 0;
                        assert(tv.take(0) =~= Seq::<Seq<char>>::empty());
                        while i < tcs.len()
                            invariant
                                i <= tcs@.len(),
                                tv == tcs@.map_values(|e: String| e@),
                                self.wf(),
                                self.view_calls() == tool_calls_steps(st0, tv.take(i as int)).0,
                                events_view(out@) == e0 + tool_calls_steps(st0, tv.take(i as int)).1,
                            decreases tcs.len() - i,
                        {
                            self.tool_call(&tcs[i], &mut out);
                            proof {
                                assert(tv.take(i + 1).drop_last() =~= tv.take(i as int));
                                assert(tv.take(i + 1).last() == tcs@[i as int]@);
                            }
                            i = i + 1;
                        }
                        assert(tv.take(tv.len() as int) =~= tv);
                        Some(out)
                    },
                    None => Some(out),
                }
            },
        }
    }

    /// The events that close the stream (see `spec_finish`).
    pub fn finish(&self) -> (r: Vec<LlmEvent>)
        ensures events_view(r@) == spec_finish(self.view_calls()),
    {
        let mut out: Vec<LlmEvent> = Vec::new();
        let ghost cs = calls_seq(self.calls@);
        let ghost av = args_seq(self.args@);
        let mut i: usize = 0;
        assert(cs.take(0) =~= Seq::<(u64, (Seq<char>, Seq<char>))>::empty());
        assert(events_view(out@) =~= Seq::<EventView>::empty());
        while i < self.calls.len()
            invariant
                i <= self.calls@.len(),
                cs == calls_seq(self.calls@),
                av == args_seq(self.args@),
                events_view(out@) == closing_events(cs.take(i as int), av),
            decreases self.calls.len() - i,
        {
            let k = self.calls[i].0;
            let id = self.calls[i].1.clone();
            let ghost before = events_view(out@);
            match args_of(&self.args, k) {
                Some(a) => {
                    let ac = chars_of(a.as_str());
                    let t = trim_chars(ac.as_slice());
                    if t.len() > 0 {
                        let ghost b = out@;
                        out.push(LlmEvent::ToolCallArgsDelta { call_id: id.clone(), json_fragment: a });
                        assert(events_view(out@) =~= events_view(b).push(event_view(out@.last())));
                    }
                },
                None => {},
            }
            let ghost b2 = out@;
            out.push(LlmEvent::ToolCallEnd { call_id: id });
            proof {
                assert(events_view(out@) =~= events_view(b2).push(event_view(out@.last())));
                assert(cs.take(i + 1).drop_last() =~= cs.take(i as int));
                assert(cs.take(i + 1).last() == cs[i as int]);
            }
            i = i + 1;
        }
        assert(cs.take(cs.len() as int) =~= cs);
        let finish = if self.had_tool_calls { FinishReason::ToolCalls } else { FinishReason::Stop };
        let ghost b3 = out@;
        out.push(LlmEvent::Completed { finish });
        assert(events_view(out@) =~= events_view(b3).push(event_view(out@.last())));
        out
    }
}

pub open spec fn opt_seq(o: Option<Seq<char>>) -> Seq<Seq<char>> {
    match o {
        Some(x) => seq![x],
        None => seq![],
    }
}

/// The text chunks of one line of a streamed reply read as plain text
/// (the delta's `content`, then its `reasoning_content`, each when it is a
/// non-empty string); `None` when the line ends the stream.
pub open spec fn spec_text_chunks(line: Seq<char>) -> Option<Seq<Seq<char>>> {
    match sse_data(line) {
        None => Some(seq![]),
        Some(data) => if data == "[DONE]"@ {
            None
        } else {
            match json_value(data) {
                None => Some(seq![]),
                Some(v) => {
                    let d = delta_of(Some(v));
                    Some(opt_seq(nonempty_str(d, "content"@)) + opt_seq(nonempty_str(d, "reasoning_content"@)))
                },
            }
        },
    }
}

/// The text chunks of one line of a streamed reply (see `spec_text_chunks`).
pub fn stream_text_chunks(line: &str) -> (r: Option<Vec<String>>)
    ensures
        match spec_text_chunks(line@) {
            None => r is None,
            Some(cs) => r matches Some(v) && v@.map_values(|e: String| e@) == cs,
        },
{
    let c = chars_of(line);
    let prefix = chars_of("data: ");
    let mut out: Vec<String> = Vec::new();
    assert(out@.map_values(|e: String| e@) =~= Seq::<Seq<char>>::empty());
    if !starts_with(c.as_slice(), prefix.as_slice()) {
        return Some(out);
    }
    let data = trim_chars(slice_to_vec(c.as_slice(), prefix.len(), c.len()).as_slice());
    let done = chars_of("[DONE]");
    if data.len() == done.len() && starts_with(data.as_slice(), done.as_slice()) {
        assert(data@ =~= "[DONE]"@);
        return None;
    }
    proof {
        if data@ == "[DONE]"@ {
            assert(data@.take(done@.len() as int) =~= data@);
        }
    }
    let text = string_from_chars(data.as_slice());
    let v = parse_json_opt(text.as_str());
    match v {
        None => Some(out),
        Some(_) => {
            let choices = node_at(&member_of(&v, "choices"));
            let first = node_at(&first_item(&choices));
            let d = node_at(&member_of(&first, "delta"));
            let a = nonempty_str_exec(&d, "content");
            let b = nonempty_str_exec(&d, "reasoning_content");
            match a {
                Some(x) => out.push(x),
                None => {},
            }
            match b {
                Some(x) => out.push(x),
                None => {},
            }
            assert(out@.map_values(|e: String| e@) =~= opt_seq(opt_chars(a)) + opt_seq(opt_chars(b)));
            Some(out)
        },
    }
}
} // verus!
