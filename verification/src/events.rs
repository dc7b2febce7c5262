//! The typed conversation history, the events that flow from the query
//! and agent loops to their sinks, and structured log records with the
//! JSON line each one is written as. JSON values are carried as their text.

use vstd::prelude::*;
use crate::domain::{spec_log_level_name, LogLevel};
use crate::error::Error;
use crate::json::{entries_view, join_commas, json_normal_text, normalize_json, quote, set_entry, set_member};
use crate::logfmt::push_str;
use crate::provider::{lit, LlmEvent};
use crate::text::{chars_of, string_from_chars};

verus! {

/// A message of the conversation history.
#[derive(Debug, Clone, PartialEq)]
pub enum Msg {
    System(String),
    User(String),
    Assistant(String),
    /// A tool call the model made; `args` is JSON text.
    ToolCall { call_id: String, name: String, args: String, thought_signature: Option<String> },
    /// The result of a tool call; `result` is JSON text.
    ToolResult { call_id: String, name: String, result: String },
}

impl Msg {
    pub fn system(s: &str) -> (r: Msg)
        ensures r matches Msg::System(x) && x@ == s@,
    {
        Msg::System(String::from_str(s))
    }

    pub fn user(s: &str) -> (r: Msg)
        ensures r matches Msg::User(x) && x@ == s@,
    {
        Msg::User(String::from_str(s))
    }

    pub fn assistant(s: &str) -> (r: Msg)
        ensures r matches Msg::Assistant(x) && x@ == s@,
    {
        Msg::Assistant(String::from_str(s))
    }

    pub fn tool_call(call_id: &str, name: &str, args: String, thought_signature: Option<String>) -> (r: Msg)
        ensures
            r matches Msg::ToolCall { call_id: c, name: n, args: a, thought_signature: t }
                && c@ == call_id@ && n@ == name@ && a == args && t == thought_signature,
    {
        Msg::ToolCall { call_id: String::from_str(call_id), name: String::from_str(name), args, thought_signature }
    }

    pub fn tool_result(call_id: &str, name: &str, result: String) -> (r: Msg)
        ensures
            r matches Msg::ToolResult { call_id: c, name: n, result: x } && c@ == call_id@ && n@ == name@ && x == result,
    {
        Msg::ToolResult { call_id: String::from_str(call_id), name: String::from_str(name), result }
    }
}

/// An event that the query and agent loops hand to a sink; `args` and
/// `result` are JSON text.
#[derive(Debug, Clone)]
pub enum AgentEvent {
    /// From the model's stream.
    Llm(LlmEvent),
    /// A tool is about to run.
    ToolCall { call_id: String, name: String, args: String },
    /// A tool ran.
    ToolResult { call_id: String, name: String, args: String, result: String },
    /// A tool failed.
    ToolError { call_id: String, name: String, args: String, message: String },
}

/// Where agent events go (shown, logged, saved).
pub trait EventSink {
    /// Takes one event.
    fn on_event(&mut self, ev: &AgentEvent) -> Result<(), Error>;

    /// The end of the stream.
    fn on_end(&mut self) -> Result<(), Error> {
        Ok(())
    }
}

/// One structured log record (one JSON line).
#[derive(Debug, Clone)]
pub struct LogRecord {
    /// ISO 8601 time.
    pub ts: String,
    pub level: LogLevel,
    pub message: String,
    /// For instance `cli`, `usecase`, `adapter`.
    pub layer: Option<String>,
    /// For instance `lifecycle`, `config`, `error`.
    pub kind: Option<String>,
    /// Extra members: keys in order, values as JSON text.
    pub fields: Option<Vec<(String, String)>>,
}

/// A field value as the record carries it: as `serde_json` prints it
/// (`null` when it is not JSON).
pub open spec fn field_text(v: Seq<char>) -> Seq<char> {
    match json_normal_text(v) {
        Some(t) => t,
        None => "null"@,
    }
}

/// An optional member: its key part, then the value as a JSON string.
pub open spec fn opt_member(key_part: Seq<char>, v: Option<String>) -> Seq<char> {
    match v {
        Some(x) => key_part + lit(x@),
        None => seq![],
    }
}

/// The JSON line of a record: its members in declaration order, the absent
/// optional ones left out, and a newline.
pub open spec fn spec_record_line(r: LogRecord) -> Seq<char> {
    "{\"ts\":"@ + lit(r.ts@) + ",\"level\":\""@ + spec_log_level_name(r.level) + "\",\"message\":"@ + lit(r.message@)
        + opt_member(",\"layer\":"@, r.layer) + opt_member(",\"kind\":"@, r.kind)
        + (match r.fields {
            Some(fs) => ",\"fields\":{"@
                + join_commas(entries_view(fs@).map_values(|e: (Seq<char>, Seq<char>)| lit(e.0) + ":"@ + field_text(e.1)))
                + "}"@,
            None => seq![],
        }) + "}\n"@
}

fn push_lit(v: &mut Vec<char>, s: &str)
    ensures final(v)@ == old(v)@ + lit(s@),
{
    let q = quote(s);
    push_str(v, q.as_str());
}

impl LogRecord {
    /// A record with a time, level and message.
    pub fn new(ts: &str, level: LogLevel, message: &str) -> (r: LogRecord)
        ensures
            r.ts@ == ts@, r.level == level, r.message@ == message@,
            r.layer is None, r.kind is None, r.fields is None,
    {
        LogRecord {
            ts: String::from_str(ts),
            level,
            message: String::from_str(message),
            layer: None,
            kind: None,
            fields: None,
        }
    }

    /// Sets field `key` to the JSON text `value` (fields stay in key order).
    pub fn with_field(self, key: &str, value: &str) -> (r: LogRecord)
        ensures
            r.ts == self.ts, r.level == self.level, r.message == self.message,
            r.layer == self.layer, r.kind == self.kind,
            r.fields matches Some(fs) && entries_view(fs@) == set_member(
                match self.fields { Some(old) => entries_view(old@), None => Seq::empty() }, key@, value@),
    {
        let mut me = self;
        let mut fs = match me.fields {
            Some(f) => f,
            None => {
                let v: Vec<(String, String)> = Vec::new();
                assert(entries_view(v@) =~= Seq::<(Seq<char>, Seq<char>)>::empty());
                v
            },
        };
        set_entry(&mut fs, String::from_str(key), String::from_str(value));
        me.fields = Some(fs);
        me
    }

    /// The record's JSON line (see `spec_record_line`).
    pub fn to_json_line(&self) -> (r: String)
        ensures r@ == spec_record_line(*self),
    {
        let mut v = chars_of("{\"ts\":");
        push_lit(&mut v, self.ts.as_str());
        push_str(&mut v, ",\"level\":\"");
        push_str(&mut v, self.level.as_str());
        push_str(&mut v, "\",\"message\":");
        push_lit(&mut v, self.message.as_str());
        let ghost v0 = v@;
        match &self.layer {
            Some(l) => {
                push_str(&mut v, ",\"layer\":");
                push_lit(&mut v, l.as_str());
            },
            None => {},
        }
        assert(v@ =~= v0 + opt_member(",\"layer\":"@, self.layer));
        let ghost v1 = v@;
        match &self.kind {
            Some(k) => {
                push_str(&mut v, ",\"kind\":");
                push_lit(&mut v, k.as_str());
            },
            None => {},
        }
        assert(v@ =~= v1 + opt_member(",\"kind\":"@, self.kind));
        match &self.fields {
            Some(fs) => {
                let ghost ev = entries_view(fs@);
                let mut texts: Vec<String> = Vec::new();
                let mut i: usize = 0;
                while i < fs.len()
                    invariant
                        i <= fs@.len(),
                        ev == entries_view(fs@),
                        texts@.map_values(|e: String| e@) =~= ev.take(i as int).map_values(
                            |e: (Seq<char>, Seq<char>)| lit(e.0) + ":"@ + field_text(e.1)),
                    decreases fs.len() - i,
                {
                    let mut t: Vec<char> = Vec::new();
                    push_lit(&mut t, fs[i].0.as_str());
                    push_str(&mut t, ":");
                    match normalize_json(fs[i].1.as_str()) {
                        Some(n) => push_str(&mut t, n.as_str()),
                        None => push_str(&mut t, "null"),
                    }
                    let ts = string_from_chars(t.as_slice());
                    let ghost before = texts@;
                    texts.push(ts);
                    proof {
                        assert(ev[i as int] == (fs@[i as int].0@, fs@[i as int].1@));
                        assert(ev.take(i + 1).drop_last() =~= ev.take(i as int));
                        assert(texts@.map_values(|e: String| e@) =~= before.map_values(|e: String| e@).push(ts@));
                        assert(ev.take(i + 1).map_values(|e: (Seq<char>, Seq<char>)| lit(e.0) + ":"@ + field_text(e.1))
                            =~= ev.take(i as int).map_values(|e: (Seq<char>, Seq<char>)| lit(e.0) + ":"@ + field_text(e.1)).push(ts@));
                    }
                    i = i + 1;
                }
                assert(ev.take(ev.len() as int) =~= ev);
                push_str(&mut v, ",\"fields\":{");
                crate::json::push_joined(&mut v, &texts);
                push_str(&mut v, "}");
            },
            None => {},
        }
        push_str(&mut v, "}\n");
        string_from_chars(v.as_slice())
    }
}

/// Where structured log records are written.
pub trait Log {
    /// Writes one record.
    fn log(&self, record: &LogRecord) -> Result<(), Error>;
}

/// A log that writes nothing.
#[derive(Debug, Clone, Copy, Default)]
pub struct NoopLog;

impl Log for NoopLog {
    fn log(&self, _record: &LogRecord) -> (r: Result<(), Error>)
        ensures r is Ok,
    {
        Ok(())
    }
}

/// A line of the debug log: `[ms] tool: message`.
pub open spec fn spec_debug_log_line(ms: nat, tool_name: Seq<char>, message: Seq<char>) -> Seq<char> {
    "["@ + crate::text::decimal(ms) + "] "@ + tool_name + ": "@ + message + "\n"@
}

/// A line of the debug log, stamped with milliseconds since the epoch.
pub fn debug_log_line(ms: u64, tool_name: &str, message: &str) -> (r: String)
    ensures r@ == spec_debug_log_line(ms as nat, tool_name@, message@),
{
    let mut v = chars_of("[");
    let d = crate::text::decimal_chars(ms);
    crate::text::extend_all(&mut v, d.as_slice());
    push_str(&mut v, "] ");
    push_str(&mut v, tool_name);
    push_str(&mut v, ": ");
    push_str(&mut v, message);
    push_str(&mut v, "\n");
    string_from_chars(v.as_slice())
}

} // verus!
