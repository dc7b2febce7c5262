//! LLM provider vocabulary (provider kinds, conversation messages, stream
//! events) and the echo provider, which answers without calling any model.

use vstd::prelude::*;
use vstd::string::*;
use crate::error::Error;
use crate::json::{
    as_array_of, as_str_of, get_member, join_commas, json_normal_text, json_value, member_of, normalize_json,
    opt_chars, parse_json_opt, quote, text_as_array, text_as_str, JsonNode,
};
use crate::logfmt::{json_string_literal, push_str};
use crate::text::{
    ascii_ci_eq, ascii_lower, chars_of, decimal, decimal_chars, eq_ignore_ascii_case, extend_all,
    parse_unsigned_chars, parse_unsigned_upto, seq_starts_with, slice_to_vec, split_whitespace,
    split_ws, starts_with, string_from_chars, trim, trim_chars, words_view, char_utf8_len, utf8_len,
    char_len, lemma_utf8_len_split, lemma_utf8_len_append,
};

verus! {

/// The provider kinds a session can be run with.
#[derive(Debug, Clone, Copy, PartialEq, Eq, Structural)]
pub enum ProviderType {
    Gemini,
    Gpt,
    /// An OpenAI Chat Completions compatible endpoint.
    OpenAiCompat,
    /// Shows the query without calling a model.
    Echo,
}

/// The provider kinds a profile's `type` names.
#[derive(Debug, Clone, Copy, PartialEq, Eq, Structural)]
pub enum ProviderTypeKind {
    Gemini,
    Openai,
    OpenaiCompat,
    Echo,
}

pub open spec fn spec_provider_type_name(t: ProviderType) -> Seq<char> {
    match t {
        ProviderType::Gemini => "gemini"@,
        ProviderType::Gpt => "gpt"@,
        ProviderType::OpenAiCompat => "openai_compat"@,
        ProviderType::Echo => "echo"@,
    }
}

/// The provider a name stands for, compared without regard to ASCII case;
/// `openai` is another name of `gpt`.
pub open spec fn spec_provider_type_from(s: Seq<char>) -> Option<ProviderType> {
    if ascii_ci_eq(s, "gemini"@) {
        Some(ProviderType::Gemini)
    } else if ascii_ci_eq(s, "gpt"@) || ascii_ci_eq(s, "openai"@) {
        Some(ProviderType::Gpt)
    } else if ascii_ci_eq(s, "openai_compat"@) {
        Some(ProviderType::OpenAiCompat)
    } else if ascii_ci_eq(s, "echo"@) {
        Some(ProviderType::Echo)
    } else {
        None
    }
}

pub open spec fn spec_provider_kind_name(k: ProviderTypeKind) -> Seq<char> {
    match k {
        ProviderTypeKind::Gemini => "gemini"@,
        ProviderTypeKind::Openai => "openai"@,
        ProviderTypeKind::OpenaiCompat => "openai_compat"@,
        ProviderTypeKind::Echo => "echo"@,
    }
}

fn name_matches(s: &[char], name: &str) -> (r: bool)
    ensures r == ascii_ci_eq(s@, name@),
{
    let n = chars_of(name);
    eq_ignore_ascii_case(s, n.as_slice())
}

impl ProviderType {
    /// The provider a name stands for (`None` for an unknown name).
    pub fn from_str(s: &str) -> (r: Option<ProviderType>)
        ensures
            r == spec_provider_type_from(s@),
            r == spec_provider_type_from(lower(s@)),
            r is Some <==> (lower(s@) == "gemini"@ || lower(s@) == "gpt"@ || lower(s@) == "openai"@
                || lower(s@) == "openai_compat"@ || lower(s@) == "echo"@),
    {
        proof {
            lemma_provider_type_from_ignores_case(s@);
        }
        let cs = chars_of(s);
        let c = cs.as_slice();
        if name_matches(c, "gemini") {
            Some(ProviderType::Gemini)
        } else if name_matches(c, "gpt") || name_matches(c, "openai") {
            Some(ProviderType::Gpt)
        } else if name_matches(c, "openai_compat") {
            Some(ProviderType::OpenAiCompat)
        } else if name_matches(c, "echo") {
            Some(ProviderType::Echo)
        } else {
            None
        }
    }

    /// The provider's canonical name.
    pub fn as_str(&self) -> (r: &'static str)
        ensures
            r@ == spec_provider_type_name(*self),
            spec_provider_type_from(r@) == Some(*self),
    {
        proof {
            lemma_provider_type_name_roundtrip(*self);
        }
        match self {
            ProviderType::Gemini => "gemini",
            ProviderType::Gpt => "gpt",
            ProviderType::OpenAiCompat => "openai_compat",
            ProviderType::Echo => "echo",
        }
    }
}

impl ProviderTypeKind {
    /// The kind's name as a profile writes it.
    pub fn as_str(&self) -> (r: &'static str)
        ensures r@ == spec_provider_kind_name(*self),
    {
        match self {
            ProviderTypeKind::Gemini => "gemini",
            ProviderTypeKind::Openai => "openai",
            ProviderTypeKind::OpenaiCompat => "openai_compat",
            ProviderTypeKind::Echo => "echo",
        }
    }
}

/// Each name reads back as the provider it names.
pub proof fn lemma_provider_type_name_roundtrip(t: ProviderType)
    ensures
        spec_provider_type_from(spec_provider_type_name(t)) == Some(t),
{
    reveal_strlit("gemini");
    reveal_strlit("gpt");
    reveal_strlit("openai");
    reveal_strlit("openai_compat");
    reveal_strlit("echo");
    let n = spec_provider_type_name(t);
    if t != ProviderType::Gemini {
        assert(ascii_lower(n[0]) != ascii_lower("gemini"@[0]) || n.len() != 6);
    }
    if t != ProviderType::Gpt {
        assert(n.len() != 3 || ascii_lower(n[0]) != ascii_lower("gpt"@[0]));
        assert(n.len() != 6 || ascii_lower(n[0]) != ascii_lower("openai"@[0]) || ascii_lower(n[5]) != ascii_lower("openai"@[5]));
    }
    if t == ProviderType::Echo {
        assert(ascii_lower(n[0]) != ascii_lower("openai_compat"@[0]) || n.len() != 13);
    }
}

/// The ASCII lowercase of a name.
pub open spec fn lower(s: Seq<char>) -> Seq<char> {
    s.map_values(|c: char| ascii_lower(c))
}

proof fn lemma_ci_eq_lower(s: Seq<char>, n: Seq<char>)
    requires
        forall|i: int| 0 <= i < n.len() ==> ascii_lower(#[trigger] n[i]) == n[i],
    ensures
        ascii_ci_eq(s, n) <==> lower(s) == n,
        ascii_ci_eq(lower(s), n) <==> ascii_ci_eq(s, n),
{
    if ascii_ci_eq(s, n) {
        assert(lower(s) =~= n);
    }
    if lower(s) == n {
        assert forall|i: int| 0 <= i < s.len() implies ascii_lower(#[trigger] s[i]) == ascii_lower(n[i]) by {
            assert(lower(s)[i] == ascii_lower(s[i]));
        }
    }
    assert forall|i: int| 0 <= i < s.len() implies ascii_lower(#[trigger] lower(s)[i]) == ascii_lower(s[i]) by {
        let c = s[i];
        assert(lower(s)[i] == ascii_lower(c));
    }
    if ascii_ci_eq(lower(s), n) {
        assert forall|i: int| 0 <= i < s.len() implies ascii_lower(#[trigger] s[i]) == ascii_lower(n[i]) by {
            assert(ascii_lower(lower(s)[i]) == ascii_lower(n[i]));
        }
    }
    if ascii_ci_eq(s, n) {
        assert forall|i: int| 0 <= i < lower(s).len() implies ascii_lower(#[trigger] lower(s)[i]) == ascii_lower(n[i]) by {
            assert(ascii_lower(s[i]) == ascii_lower(n[i]));
        }
    }
}

/// A provider name is read without regard to ASCII case: a name and its
/// ASCII lowercase stand for the same provider, and a name stands for one
/// exactly when its lowercase is `gemini`, `gpt`, `openai`, `openai_compat`
/// or `echo`.
pub proof fn lemma_provider_type_from_ignores_case(s: Seq<char>)
    ensures
        spec_provider_type_from(s) == spec_provider_type_from(lower(s)),
        spec_provider_type_from(s) is Some <==> (
            lower(s) == "gemini"@ || lower(s) == "gpt"@ || lower(s) == "openai"@
            || lower(s) == "openai_compat"@ || lower(s) == "echo"@),
{
    reveal_strlit("gemini");
    reveal_strlit("gpt");
    reveal_strlit("openai");
    reveal_strlit("openai_compat");
    reveal_strlit("echo");
    lemma_ci_eq_lower(s, "gemini"@);
    lemma_ci_eq_lower(s, "gpt"@);
    lemma_ci_eq_lower(s, "openai"@);
    lemma_ci_eq_lower(s, "openai_compat"@);
    lemma_ci_eq_lower(s, "echo"@);
}

/// How a model stopped.
#[derive(Debug, Clone, Copy, PartialEq, Eq, Structural)]
pub enum FinishReason {
    Stop,
    ToolCalls,
}

/// One step of a provider's normalized stream.
#[derive(Debug, Clone)]
pub enum LlmEvent {
    TextDelta(String),
    ReasoningDelta(String),
    ToolCallBegin { call_id: String, name: String, thought_signature: Option<String> },
    ToolCallArgsDelta { call_id: String, json_fragment: String },
    ToolCallEnd { call_id: String },
    Completed { finish: FinishReason },
}

/// An event by the characters it carries.
pub enum EventView {
    Text(Seq<char>),
    Reasoning(Seq<char>),
    Begin(Seq<char>, Seq<char>, Option<Seq<char>>),
    Args(Seq<char>, Seq<char>),
    End(Seq<char>),
    Done(FinishReason),
}

pub open spec fn event_view(e: LlmEvent) -> EventView {
    match e {
        LlmEvent::TextDelta(s) => EventView::Text(s@),
        LlmEvent::ReasoningDelta(s) => EventView::Reasoning(s@),
        LlmEvent::ToolCallBegin { call_id, name, thought_signature } => EventView::Begin(
            call_id@,
            name@,
            opt_chars(thought_signature),
        ),
        LlmEvent::ToolCallArgsDelta { call_id, json_fragment } => EventView::Args(call_id@, json_fragment@),
        LlmEvent::ToolCallEnd { call_id } => EventView::End(call_id@),
        LlmEvent::Completed { finish } => EventView::Done(finish),
    }
}

pub open spec fn events_view(v: Seq<LlmEvent>) -> Seq<EventView> {
    v.map_values(|e: LlmEvent| event_view(e))
}

/// A tool the model may call; `parameters` is its JSON schema as text.
#[derive(Debug, Clone)]
pub struct ToolDef {
    pub name: String,
    pub description: String,
    pub parameters: String,
}

/// One tool call an assistant made; `args` is JSON text.
#[derive(Debug, Clone)]
pub struct ToolCallSpec {
    pub id: String,
    pub name: String,
    pub args: String,
    pub thought_signature: Option<String>,
}

/// A conversation message (user, assistant or tool result).
#[derive(Debug, Clone)]
pub struct Message {
    pub role: String,
    pub content: String,
    pub tool_calls: Option<Vec<ToolCallSpec>>,
    pub tool_call_id: Option<String>,
    pub tool_name: Option<String>,
}

impl Message {
    pub fn new(role: &str, content: &str) -> (r: Message)
        ensures
            r.role@ == role@,
            r.content@ == content@,
            r.tool_calls is None,
            r.tool_call_id is None,
            r.tool_name is None,
    {
        Message {
            role: String::from_str(role),
            content: String::from_str(content),
            tool_calls: None,
            tool_call_id: None,
            tool_name: None,
        }
    }

    pub fn user(content: &str) -> (r: Message)
        ensures
            r.role@ == "user"@,
            r.content@ == content@,
            r.tool_calls is None,
            r.tool_call_id is None,
            r.tool_name is None,
    {
        Message::new("user", content)
    }

    pub fn assistant(content: &str) -> (r: Message)
        ensures
            r.role@ == "assistant"@,
            r.content@ == content@,
            r.tool_calls is None,
            r.tool_call_id is None,
            r.tool_name is None,
    {
        Message::new("assistant", content)
    }

    /// An assistant message that called tools: `(id, name, args, thought_signature)` each.
    pub fn assistant_with_tool_calls(content: &str, tool_calls: Vec<(String, String, String, Option<String>)>) -> (r: Message)
        ensures
            r.role@ == "assistant"@,
            r.content@ == content@,
            r.tool_calls matches Some(calls) && calls@.len() == tool_calls@.len()
                && forall|i: int| 0 <= i < calls@.len() ==> {
                    &&& #[trigger] calls@[i].id == tool_calls@[i].0
                    &&& calls@[i].name == tool_calls@[i].1
                    &&& calls@[i].args == tool_calls@[i].2
                    &&& calls@[i].thought_signature == tool_calls@[i].3
                },
            r.tool_call_id is None,
            r.tool_name is None,
    {
        let mut calls: Vec<ToolCallSpec> = Vec::new();
        let mut rest = tool_calls;
        let ghost orig = rest@;
        assert(orig.subrange(0, orig.len() as int) =~= orig);
        while rest.len() > 0
            invariant
                calls@.len() + rest@.len() == orig.len(),
                rest@ == orig.subrange(calls@.len() as int, orig.len() as int),
                forall|j: int| 0 <= j < calls@.len() ==> {
                    &&& #[trigger] calls@[j].id == orig[j].0
                    &&& calls@[j].name == orig[j].1
                    &&& calls@[j].args == orig[j].2
                    &&& calls@[j].thought_signature == orig[j].3
                },
            decreases rest@.len(),
        {
            let (id, name, args, sig) = rest.remove(0);
            calls.push(ToolCallSpec { id, name, args, thought_signature: sig });
        }
        Message {
            role: String::from_str("assistant"),
            content: String::from_str(content),
            tool_calls: Some(calls),
            tool_call_id: None,
            tool_name: None,
        }
    }

    /// A tool result (role `tool`) answering the call `call_id` of tool `name`.
    pub fn tool_result(call_id: &str, name: &str, content: &str) -> (r: Message)
        ensures
            r.role@ == "tool"@,
            r.content@ == content@,
            r.tool_calls is None,
            r.tool_call_id matches Some(c) && c@ == call_id@,
            r.tool_name matches Some(n) && n@ == name@,
    {
        Message {
            role: String::from_str("tool"),
            content: String::from_str(content),
            tool_calls: None,
            tool_call_id: Some(String::from_str(call_id)),
            tool_name: Some(String::from_str(name)),
        }
    }
}

/// The provider that answers without calling a model.
#[derive(Debug, Clone, Copy)]
pub struct EchoProvider;

pub open spec fn lit(s: Seq<char>) -> Seq<char> {
    json_string_literal(s)
}

/// Joins texts with `,`.
/// A history message as the echo payload holds it.
pub open spec fn history_entry_text(m: Message) -> Seq<char> {
    "{\"content\":"@ + lit(m.content@) + ",\"role\":"@ + lit(m.role@) + "}"@
}

/// The echo request payload: the query, the system instruction when given
/// and the history when not empty, as `serde_json` prints such an object.
pub open spec fn spec_echo_payload(query: Seq<char>, system: Option<Seq<char>>, history: Seq<Message>) -> Seq<char> {
    "{"@
        + (if history.len() > 0 {
            "\"history\":["@ + join_commas(history.map_values(|m: Message| history_entry_text(m))) + "],"@
        } else {
            seq![]
        })
        + "\"query\":"@ + lit(query)
        + (match system {
            Some(si) => ",\"system_instruction\":"@ + lit(si),
            None => seq![],
        })
        + "}"@
}

pub open spec fn opt_str(s: Option<&str>) -> Option<Seq<char>> {
    match s {
        Some(x) => Some(x@),
        None => None,
    }
}

pub open spec fn echo_fixed_reply() -> Seq<char> {
    "[Echo Provider] Query received (no actual LLM call made)"@
}

pub open spec fn simulated_reply() -> Seq<char> {
    "[Echo Provider] This is a simulated streaming response from the echo provider. It displays text chunk by chunk to demonstrate the streaming capability."@
}

/// The single text of the echo provider's plain answer.
pub open spec fn text_only_text(query: Seq<char>, n: nat, system: Option<Seq<char>>) -> Seq<char> {
    "[Echo Provider] Query: user message: "@ + query + "\n\n"@
        + (if n > 0 { "[Echo Provider] History: "@ + decimal(n) + " messages\n"@ } else { seq![] })
        + (match system {
            Some(si) => "[Echo Provider] System instruction: "@ + si + "\n"@,
            None => seq![],
        })
        + "\n"@ + "[Echo Provider] 採用された履歴件数: "@ + decimal(n) + " 件。\n\n"@ + simulated_reply()
}

pub open spec fn text_only_events(query: Seq<char>, n: nat, system: Option<Seq<char>>) -> Seq<EventView> {
    seq![EventView::Text(text_only_text(query, n, system)), EventView::Done(FinishReason::Stop)]
}

/// The role of a history element (its `role` string).
pub open spec fn role_of(elem: Seq<char>) -> Option<Seq<char>> {
    text_as_str(get_member(json_value(elem), "role"@))
}

pub open spec fn content_of(elem: Seq<char>) -> Option<Seq<char>> {
    text_as_str(get_member(json_value(elem), "content"@))
}

pub open spec fn is_tool_elem(elem: Seq<char>) -> bool {
    role_of(elem) == Some("tool"@)
}

/// How many history elements are tool results.
pub open spec fn tool_result_count(h: Seq<Seq<char>>) -> nat
    decreases h.len(),
{
    if h.len() == 0 { 0 } else { tool_result_count(h.drop_last()) + if is_tool_elem(h.last()) { 1nat } else { 0nat } }
}

/// The number of tool calls answered with another call before a tool result
/// gets a text answer: the setting when it reads as a `usize`, else 2.
pub open spec fn loop_test_limit(setting: Option<Seq<char>>) -> nat {
    match setting {
        Some(s) => match parse_unsigned_upto(s, usize::MAX as nat) {
            Some(v) => v,
            None => 2,
        },
        None => 2,
    }
}

/// The longest prefix of `s` whose UTF-8 encoding fits in `budget` bytes.
pub open spec fn prefix_within(s: Seq<char>, budget: int) -> Seq<char>
    decreases s.len(),
{
    if s.len() == 0 || char_utf8_len(s[0]) > budget {
        seq![]
    } else {
        seq![s[0]] + prefix_within(s.drop_first(), budget - char_utf8_len(s[0]))
    }
}

/// A tool result's content as the echo answer shows it: cut to 60 bytes and
/// marked with `...` when longer.
pub open spec fn preview_text(p: Seq<char>) -> Seq<char> {
    if utf8_len(p) > 60 { prefix_within(p, 60) + "..."@ } else { p }
}

/// Each word as a text event followed by a one-space text event.
pub open spec fn word_events(words: Seq<Seq<char>>) -> Seq<EventView>
    decreases words.len(),
{
    if words.len() == 0 {
        seq![]
    } else {
        word_events(words.drop_last()) + seq![EventView::Text(words.last()), EventView::Text(" "@)]
    }
}

pub open spec fn tool_reply_events(h: Seq<Seq<char>>) -> Seq<EventView> {
    let preview = match content_of(h.last()) {
        Some(c) => c,
        None => "{}"@,
    };
    let msg = "[Echo Provider] Tool result was received. Proceeding with: "@ + preview_text(preview);
    word_events(split_ws(msg)) + seq![EventView::Done(FinishReason::Stop)]
}

pub open spec fn call_events(call_id: Seq<char>, name: Seq<char>, args: Seq<char>) -> Seq<EventView> {
    seq![
        EventView::Begin(call_id, name, None),
        EventView::Args(call_id, args),
        EventView::End(call_id),
        EventView::Done(FinishReason::ToolCalls),
    ]
}

pub open spec fn loop_events(step: nat, first_tool: Seq<char>) -> Seq<EventView> {
    call_events(
        "echo_loop_"@ + decimal(step),
        first_tool,
        "{\"command\":"@ + lit("echo loop step "@ + decimal(step)) + "}"@,
    )
}

/// `s` begins with `p` up to ASCII case.
pub open spec fn ci_prefix(s: Seq<char>, p: Seq<char>) -> bool {
    p.len() <= s.len() && ascii_ci_eq(s.take(p.len() as int), p)
}

/// The query calls tool `name`: it is `call:name` up to ASCII case, begins
/// with `call: name`, or begins with `call:name` up to ASCII case.
pub open spec fn is_call(q: Seq<char>, name: Seq<char>) -> bool {
    let prefix = "call:"@ + name;
    let prefix_sp = "call: "@ + name;
    ascii_ci_eq(q, prefix) || seq_starts_with(q, prefix_sp) || ci_prefix(q, prefix)
}

/// The text after the call prefix, trimmed.
pub open spec fn call_args(q: Seq<char>, name: Seq<char>) -> Seq<char> {
    let prefix = "call:"@ + name;
    let prefix_sp = "call: "@ + name;
    if seq_starts_with(q, prefix) {
        trim(q.skip(prefix.len() as int))
    } else if seq_starts_with(q, prefix_sp) {
        trim(q.skip(prefix_sp.len() as int))
    } else if ci_prefix(q, prefix) {
        trim(q.skip(prefix.len() as int))
    } else {
        seq![]
    }
}

/// The JSON arguments of a simulated call: a default when none are given,
/// the given JSON as `serde_json` prints it, or else the text as both
/// `message` and `input`.
pub open spec fn call_args_json(a: Seq<char>, name: Seq<char>) -> Seq<char> {
    if a.len() == 0 {
        if name == "run_shell"@ { "{\"command\":\"echo ok\"}"@ } else { "{}"@ }
    } else {
        match json_normal_text(a) {
            Some(t) => t,
            None => "{\"input\":"@ + lit(a) + ",\"message\":"@ + lit(a) + "}"@,
        }
    }
}

/// The events of the first tool in `names` (from `i`) that the query calls.
pub open spec fn first_call(q: Seq<char>, names: Seq<Seq<char>>, i: int) -> Option<Seq<EventView>>
    decreases names.len() - i,
{
    if i < 0 || i >= names.len() {
        None
    } else if is_call(q, names[i]) {
        Some(call_events("echo_call_"@ + names[i], names[i], call_args_json(call_args(q, names[i]), names[i])))
    } else {
        first_call(q, names, i + 1)
    }
}

pub open spec fn tool_names(tools: Option<Seq<ToolDef>>) -> Seq<Seq<char>> {
    match tools {
        Some(t) => t.map_values(|d: ToolDef| d.name@),
        None => seq![],
    }
}

pub open spec fn opt_tools(tools: Option<&[ToolDef]>) -> Option<Seq<ToolDef>> {
    match tools {
        Some(t) => Some(t@),
        None => None,
    }
}

/// The echo provider's stream for a request: a text answer that repeats the
/// query, history size and system instruction; a simulated call when the
/// query calls a tool; after tool results, further calls up to the loop-test
/// limit and then a text answer quoting the last result.
pub open spec fn spec_echo_events(request: Seq<char>, names: Seq<Seq<char>>, setting: Option<Seq<char>>) -> Seq<EventView> {
    let payload = json_value(request);
    if payload is None {
        text_only_events(seq![], 0, None)
    } else {
        let query = trim(match text_as_str(get_member(payload, "query"@)) { Some(q) => q, None => seq![] });
        let history = match text_as_array(get_member(payload, "history"@)) { Some(h) => h, None => seq![] };
        let system = text_as_str(get_member(payload, "system_instruction"@));
        if history.len() > 0 && is_tool_elem(history.last()) {
            let count = tool_result_count(history);
            if count < loop_test_limit(setting) {
                loop_events(count + 1, if names.len() > 0 { names[0] } else { "run_shell"@ })
            } else {
                tool_reply_events(history)
            }
        } else {
            match first_call(query, names, 0) {
                Some(ev) => ev,
                None => text_only_events(query, history.len(), system),
            }
        }
    }
}

fn text_event(v: &Vec<char>) -> (e: LlmEvent)
    ensures event_view(e) == EventView::Text(v@),
{
    LlmEvent::TextDelta(string_from_chars(v.as_slice()))
}

fn chars_of_string(s: &String) -> (v: Vec<char>)
    ensures v@ == s@,
{
    chars_of(s.as_str())
}

/// Whether a history element's `role` is `tool`.
fn elem_is_tool(elem: &String) -> (r: bool)
    ensures r == is_tool_elem(elem@),
{
    let node = parse_json_opt(elem.as_str());
    let role = as_str_of(&member_of(&node, "role"));
    match role {
        Some(x) => x == String::from_str("tool"),
        None => false,
    }
}

/// The `usize` a setting reads as, else 2.
fn limit_of(setting: Option<&str>) -> (r: usize)
    ensures r as nat == loop_test_limit(opt_str(setting)),
{
    match setting {
        Some(s) => {
            let cs = chars_of(s);
            match parse_unsigned_chars(cs.as_slice(), usize::MAX as u64) {
                Some(v) => v as usize,
                None => 2,
            }
        },
        None => 2,
    }
}

fn call_event_list(call_id: Vec<char>, name: Vec<char>, args: Vec<char>) -> (r: Vec<LlmEvent>)
    ensures events_view(r@) == call_events(call_id@, name@, args@),
{
    let id = string_from_chars(call_id.as_slice());
    let mut r: Vec<LlmEvent> = Vec::new();
    r.push(LlmEvent::ToolCallBegin {
        call_id: id.clone(),
        name: string_from_chars(name.as_slice()),
        thought_signature: None,
    });
    r.push(LlmEvent::ToolCallArgsDelta { call_id: id.clone(), json_fragment: string_from_chars(args.as_slice()) });
    r.push(LlmEvent::ToolCallEnd { call_id: id });
    r.push(LlmEvent::Completed { finish: FinishReason::ToolCalls });
    assert(events_view(r@) =~= call_events(call_id@, name@, args@));
    r
}

fn word_event_list(words: &Vec<Vec<char>>) -> (r: Vec<LlmEvent>)
    ensures events_view(r@) == word_events(words_view(words@)),
{
    let mut r: Vec<LlmEvent> = Vec::new();
    let mut i: usize = 0;
    let sp = chars_of(" ");
    assert(events_view(r@) =~= word_events(words_view(words@.subrange(0, 0))));
    while i < words.len()
        invariant
            i <= words@.len(),
            sp@ == " "@,
            events_view(r@) == word_events(words_view(words@.subrange(0, i as int))),
        decreases words.len() - i,
    {
        let ghost before = r@;
        r.push(text_event(&words[i]));
        r.push(text_event(&sp));
        proof {
            let ws = words_view(words@.subrange(0, i + 1));
            assert(ws.drop_last() =~= words_view(words@.subrange(0, i as int)));
            assert(ws.last() == words@[i as int]@);
            assert(events_view(r@) =~= events_view(before) + seq![EventView::Text(words@[i as int]@), EventView::Text(" "@)]);
        }
        i = i + 1;
    }
    assert(words@.subrange(0, words@.len() as int) =~= words@);
    r
}

proof fn lemma_prefix_within(s: Seq<char>, k: int, budget: int)
    requires
        0 <= k <= s.len(),
        utf8_len(s.take(k)) <= budget,
        k == s.len() || utf8_len(s.take(k)) + char_utf8_len(s[k]) > budget,
    ensures
        prefix_within(s, budget) == s.take(k),
    decreases k,
{
    if k > 0 {
        let t = s.drop_first();
        assert(s.take(k).drop_first() =~= t.take(k - 1));
        assert(s.take(k)[0] == s[0]);
        if k < s.len() {
            assert(s.take(k + 1).drop_first() =~= t.take(k));
        }
        lemma_prefix_within(t, k - 1, budget - char_utf8_len(s[0]));
        assert(seq![s[0]] + t.take(k - 1) =~= s.take(k));
    } else {
        assert(s.take(0) =~= Seq::<char>::empty());
    }
}

/// A tool result's content as the echo answer shows it.
fn preview_of(p: &Vec<char>) -> (r: Vec<char>)
    ensures r@ == preview_text(p@),
{
    let mut acc: usize = 0;
    let mut k: usize = 0;
    assert(p@.take(0) =~= Seq::<char>::empty());
    while k < p.len() && acc + char_len(p[k]) <= 60
        invariant
            k <= p@.len(),
            acc as nat == utf8_len(p@.take(k as int)),
            acc <= 60,
        decreases p.len() - k,
    {
        proof { lemma_utf8_len_split(p@, k as int); }
        acc = acc + char_len(p[k]);
        k = k + 1;
    }
    proof {
        lemma_prefix_within(p@, k as int, 60);
        if k < p@.len() {
            lemma_utf8_len_split(p@, k as int);
            lemma_utf8_len_append(p@.take(k + 1), p@.skip(k + 1));
            assert(p@.take(k + 1) + p@.skip(k + 1) =~= p@);
        } else {
            assert(p@.take(k as int) =~= p@);
        }
    }
    if k < p.len() {
        let mut r = slice_to_vec(p.as_slice(), 0, k);
        push_str(&mut r, "...");
        assert(p@.subrange(0, k as int) =~= p@.take(k as int));
        r
    } else {
        p.clone()
    }
}

/// Each word followed by a one-space chunk.
pub open spec fn word_chunks(words: Seq<Seq<char>>) -> Seq<Seq<char>>
    decreases words.len(),
{
    if words.len() == 0 { seq![] } else { word_chunks(words.drop_last()) + seq![words.last(), " "@] }
}

pub open spec fn strings_view(v: Seq<String>) -> Seq<Seq<char>> {
    v.map_values(|s: String| s@)
}

fn string_of(v: &Vec<char>) -> (s: String)
    ensures s@ == v@,
{
    string_from_chars(v.as_slice())
}

fn same_chars(a: &Vec<char>, b: &Vec<char>) -> (r: bool)
    ensures r == (a@ == b@),
{
    if a.len() != b.len() {
        return false;
    }
    let r = starts_with(a.as_slice(), b.as_slice());
    proof {
        assert(a@.take(b@.len() as int) =~= a@);
    }
    r
}

/// The JSON arguments of a simulated call of tool `name`.
fn call_args_json_exec(a: &Vec<char>, name: &Vec<char>) -> (r: Vec<char>)
    ensures r@ == call_args_json(a@, name@),
{
    if a.len() == 0 {
        let rs = chars_of("run_shell");
        if same_chars(name, &rs) {
            chars_of("{\"command\":\"echo ok\"}")
        } else {
            chars_of("{}")
        }
    } else {
        let text = string_of(a);
        match normalize_json(text.as_str()) {
            Some(t) => chars_of(t.as_str()),
            None => {
                let q = quote(text.as_str());
                let mut r = chars_of("{\"input\":");
                push_str(&mut r, q.as_str());
                push_str(&mut r, ",\"message\":");
                push_str(&mut r, q.as_str());
                push_str(&mut r, "}");
                r
            },
        }
    }
}

/// The call events when the query calls tool `name`.
fn call_for(q: &Vec<char>, name: &Vec<char>) -> (r: Option<Vec<LlmEvent>>)
    ensures
        r is Some <==> is_call(q@, name@),
        r matches Some(ev) ==> events_view(ev@) == call_events(
            "echo_call_"@ + name@, name@, call_args_json(call_args(q@, name@), name@)),
{
    let mut prefix = chars_of("call:");
    extend_all(&mut prefix, name.as_slice());
    let mut prefix_sp = chars_of("call: ");
    extend_all(&mut prefix_sp, name.as_slice());
    let c1 = eq_ignore_ascii_case(q.as_slice(), prefix.as_slice());
    let c2 = starts_with(q.as_slice(), prefix_sp.as_slice());
    let c3 = prefix.len() <= q.len() && {
        let head = slice_to_vec(q.as_slice(), 0, prefix.len());
        assert(head@ == q@.take(prefix@.len() as int));
        eq_ignore_ascii_case(head.as_slice(), prefix.as_slice())
    };
    if !(c1 || c2 || c3) {
        return None;
    }
    let a = if starts_with(q.as_slice(), prefix.as_slice()) {
        let rest = slice_to_vec(q.as_slice(), prefix.len(), q.len());
        assert(rest@ == q@.skip(prefix@.len() as int));
        trim_chars(rest.as_slice())
    } else if c2 {
        let rest = slice_to_vec(q.as_slice(), prefix_sp.len(), q.len());
        assert(rest@ == q@.skip(prefix_sp@.len() as int));
        trim_chars(rest.as_slice())
    } else if c3 {
        let rest = slice_to_vec(q.as_slice(), prefix.len(), q.len());
        assert(rest@ == q@.skip(prefix@.len() as int));
        trim_chars(rest.as_slice())
    } else {
        Vec::new()
    };
    let args = call_args_json_exec(&a, name);
    let mut id = chars_of("echo_call_");
    extend_all(&mut id, name.as_slice());
    Some(call_event_list(id, name.clone(), args))
}

impl EchoProvider {
    pub fn new() -> (r: EchoProvider)
        ensures r == EchoProvider,
    {
        EchoProvider
    }

    pub fn name(&self) -> (r: &'static str)
        ensures r@ == "echo"@,
    {
        "echo"
    }

    /// No request is sent: the reply is `{"echo": request_json}`.
    pub fn make_http_request(&self, request_json: &str) -> (r: Result<String, Error>)
        ensures r matches Ok(t) && t@ == "{\"echo\":"@ + lit(request_json@) + "}"@,
    {
        let mut v = chars_of("{\"echo\":");
        let q = quote(request_json);
        push_str(&mut v, q.as_str());
        push_str(&mut v, "}");
        Ok(string_of(&v))
    }

    /// The fixed reply text, whatever the response.
    pub fn parse_response_text(&self, response_json: &str) -> (r: Result<Option<String>, Error>)
        ensures r matches Ok(Some(t)) && t@ == echo_fixed_reply(),
    {
        Ok(Some(String::from_str("[Echo Provider] Query received (no actual LLM call made)")))
    }

    /// Tool calls are simulated in the stream; a response never has any.
    pub fn check_tool_calls(&self, response_json: &str) -> (r: Result<bool, Error>)
        ensures r matches Ok(b) && !b,
    {
        Ok(false)
    }

    /// The request payload: the query, the system instruction when given,
    /// the history's roles and contents when not empty (tools are not sent).
    pub fn make_request_payload(
        &self,
        query: &str,
        system_instruction: Option<&str>,
        history: &[Message],
        tools: Option<&[ToolDef]>,
    ) -> (r: Result<String, Error>)
        ensures r matches Ok(p) && p@ == spec_echo_payload(query@, opt_str(system_instruction), history@),
    {
        let mut v = chars_of("{");
        if history.len() > 0 {
            push_str(&mut v, "\"history\":[");
            let ghost start = v@;
            let mut i: usize = 0;
            assert(history@.take(0).map_values(|m: Message| history_entry_text(m)) =~= Seq::<Seq<char>>::empty());
            while i < history.len()
                invariant
                    i <= history@.len(),
                    v@ == start + join_commas(history@.take(i as int).map_values(|m: Message| history_entry_text(m))),
                decreases history.len() - i,
            {
                if i > 0 {
                    push_str(&mut v, ",");
                }
                push_str(&mut v, "{\"content\":");
                let c = quote(history[i].content.as_str());
                push_str(&mut v, c.as_str());
                push_str(&mut v, ",\"role\":");
                let rl = quote(history[i].role.as_str());
                push_str(&mut v, rl.as_str());
                push_str(&mut v, "}");
                proof {
                    let parts = history@.take(i + 1).map_values(|m: Message| history_entry_text(m));
                    assert(parts.drop_last() =~= history@.take(i as int).map_values(|m: Message| history_entry_text(m)));
                    assert(parts.last() == history_entry_text(history@[i as int]));
                }
                i = i + 1;
            }
            assert(history@.take(history@.len() as int) =~= history@);
            push_str(&mut v, "],");
        }
        push_str(&mut v, "\"query\":");
        let q = quote(query);
        push_str(&mut v, q.as_str());
        match system_instruction {
            Some(si) => {
                push_str(&mut v, ",\"system_instruction\":");
                let sq = quote(si);
                push_str(&mut v, sq.as_str());
            },
            None => {},
        }
        push_str(&mut v, "}");
        Ok(string_of(&v))
    }

    /// The chunks a streaming request yields, in order: each word of a fixed
    /// text followed by a space (no request is sent).
    pub fn make_http_streaming_request(&self, request_json: &str) -> (r: Vec<String>)
        ensures strings_view(r@) == word_chunks(split_ws(simulated_reply())),
    {
        let text = chars_of("[Echo Provider] This is a simulated streaming response from the echo provider. It displays text chunk by chunk to demonstrate the streaming capability.");
        let words = split_whitespace(text.as_slice());
        let mut r: Vec<String> = Vec::new();
        let mut i: usize = 0;
        assert(strings_view(r@) =~= word_chunks(words_view(words@.subrange(0, 0))));
        while i < words.len()
            invariant
                i <= words@.len(),
                strings_view(r@) == word_chunks(words_view(words@.subrange(0, i as int))),
            decreases words.len() - i,
        {
            let ghost before = r@;
            r.push(string_of(&words[i]));
            r.push(String::from_str(" "));
            proof {
                let ws = words_view(words@.subrange(0, i + 1));
                assert(ws.drop_last() =~= words_view(words@.subrange(0, i as int)));
                assert(ws.last() == words@[i as int]@);
                assert(strings_view(r@) =~= strings_view(before) + seq![words@[i as int]@, " "@]);
            }
            i = i + 1;
        }
        assert(words@.subrange(0, words@.len() as int) =~= words@);
        r
    }

    /// The plain answer: one text repeating the query, the history size and
    /// the system instruction, then the end of the stream.
    pub fn stream_events_text_only(&self, query: &str, history_count: usize, system_instruction: Option<&str>) -> (r: Vec<LlmEvent>)
        ensures events_view(r@) == text_only_events(query@, history_count as nat, opt_str(system_instruction)),
    {
        let qv = chars_of(query);
        text_only_list(&qv, history_count, system_instruction)
    }
}

fn text_only_list(query: &Vec<char>, n: usize, system: Option<&str>) -> (r: Vec<LlmEvent>)
    ensures events_view(r@) == text_only_events(query@, n as nat, opt_str(system)),
{
    let mut v = chars_of("[Echo Provider] Query: user message: ");
    extend_all(&mut v, query.as_slice());
    push_str(&mut v, "\n\n");
    let ghost p1 = v@;
    let d = decimal_chars(n as u64);
    if n > 0 {
        push_str(&mut v, "[Echo Provider] History: ");
        extend_all(&mut v, d.as_slice());
        push_str(&mut v, " messages\n");
    }
    let ghost p2 = v@;
    assert(p2 =~= p1 + (if n > 0 { "[Echo Provider] History: "@ + decimal(n as nat) + " messages\n"@ } else { seq![] }));
    match system {
        Some(si) => {
            push_str(&mut v, "[Echo Provider] System instruction: ");
            push_str(&mut v, si);
            push_str(&mut v, "\n");
        },
        None => {},
    }
    assert(v@ =~= p2 + (match opt_str(system) {
            Some(si) => "[Echo Provider] System instruction: "@ + si + "\n"@,
            None => seq![],
        }));
    push_str(&mut v, "\n");
    push_str(&mut v, "[Echo Provider] 採用された履歴件数: ");
    extend_all(&mut v, d.as_slice());
    push_str(&mut v, " 件。\n\n");
    push_str(&mut v, "[Echo Provider] This is a simulated streaming response from the echo provider. It displays text chunk by chunk to demonstrate the streaming capability.");
    assert(v@ =~= text_only_text(query@, n as nat, opt_str(system)));
    let mut r: Vec<LlmEvent> = Vec::new();
    r.push(text_event(&v));
    r.push(LlmEvent::Completed { finish: FinishReason::Stop });
    assert(events_view(r@) =~= text_only_events(query@, n as nat, opt_str(system)));
    r
}

pub open spec fn hist_view(h: Seq<String>) -> Seq<Seq<char>> {
    h.map_values(|e: String| e@)
}

/// How many history elements are tool results.
fn count_tool_results(h: &Vec<String>) -> (r: usize)
    ensures r as nat == tool_result_count(hist_view(h@)),
{
    let mut c: usize = 0;
    let mut i: usize = 0;
    assert(hist_view(h@.take(0)) =~= Seq::<Seq<char>>::empty());
    while i < h.len()
        invariant
            i <= h@.len(),
            c <= i,
            c as nat == tool_result_count(hist_view(h@.take(i as int))),
        decreases h.len() - i,
    {
        proof {
            let hv = hist_view(h@.take(i + 1));
            assert(hv.drop_last() =~= hist_view(h@.take(i as int)));
            assert(hv.last() == h@[i as int]@);
        }
        if elem_is_tool(&h[i]) {
            c = c + 1;
        }
        i = i + 1;
    }
    assert(h@.take(h@.len() as int) =~= h@);
    c
}

/// The events of the first tool (from `i`) that the query calls.
fn first_call_exec(q: &Vec<char>, tools: &[ToolDef]) -> (r: Option<Vec<LlmEvent>>)
    ensures
        match first_call(q@, tool_names(Some(tools@)), 0) {
            Some(ev) => r matches Some(x) && events_view(x@) == ev,
            None => r is None,
        },
{
    let ghost names = tool_names(Some(tools@));
    let mut i: usize = 0;
    while i < tools.len()
        invariant
            i <= tools@.len(),
            names == tool_names(Some(tools@)),
            names.len() == tools@.len(),
            first_call(q@, names, i as int) == first_call(q@, names, 0),
        decreases tools.len() - i,
    {
        let name = chars_of(tools[i].name.as_str());
        assert(names[i as int] == tools@[i as int].name@);
        match call_for(q, &name) {
            Some(ev) => {
                return Some(ev);
            },
            None => {},
        }
        i = i + 1;
    }
    None
}

impl EchoProvider {
    /// The provider's stream for a request (see `spec_echo_events`);
    /// `loop_test_setting` is the configured loop-test limit, if any.
    pub fn stream_events(&self, request_json: &str, tools: Option<&[ToolDef]>, loop_test_setting: Option<&str>) -> (r: Vec<LlmEvent>)
        ensures
            events_view(r@) == spec_echo_events(request_json@, tool_names(opt_tools(tools)), opt_str(loop_test_setting)),
    {
        let payload = parse_json_opt(request_json);
        if payload.is_none() {
            let empty: Vec<char> = Vec::new();
            assert(empty@ =~= Seq::<char>::empty());
            return text_only_list(&empty, 0, None);
        }
        let query = match as_str_of(&member_of(&payload, "query")) {
            Some(q) => {
                let qc = chars_of(q.as_str());
                trim_chars(qc.as_slice())
            },
            None => {
                let e: Vec<char> = Vec::new();
                proof { assert(trim(Seq::<char>::empty()) =~= Seq::<char>::empty()) by {
                    crate::text::lemma_leading_ws(Seq::<char>::empty(), 0);
                    crate::text::lemma_trailing_ws(Seq::<char>::empty(), 0);
                } }
                e
            },
        };
        let history: Vec<String> = match as_array_of(&member_of(&payload, "history")) {
            Some(h) => h,
            None => Vec::new(),
        };
        assert(hist_view(history@) == (match text_as_array(get_member(payload, "history"@)) { Some(h) => h, None => seq![] }));
        let system = as_str_of(&member_of(&payload, "system_instruction"));
        let ghost names = tool_names(opt_tools(tools));
        if history.len() > 0 && elem_is_tool(&history[history.len() - 1]) {
            proof { assert(hist_view(history@).last() == history@.last()@); }
            let count = count_tool_results(&history);
            let limit = limit_of(loop_test_setting);
            if count < limit {
                let step = count + 1;
                let d = decimal_chars(step as u64);
                let mut id = chars_of("echo_loop_");
                extend_all(&mut id, d.as_slice());
                let first = match tools {
                    Some(t) => if t.len() > 0 { chars_of(t[0].name.as_str()) } else { chars_of("run_shell") },
                    None => chars_of("run_shell"),
                };
                let mut cmd = chars_of("echo loop step ");
                extend_all(&mut cmd, d.as_slice());
                let cq = quote(string_of(&cmd).as_str());
                let mut args = chars_of("{\"command\":");
                push_str(&mut args, cq.as_str());
                push_str(&mut args, "}");
                return call_event_list(id, first, args);
            } else {
                let last = &history[history.len() - 1];
                let content = as_str_of(&member_of(&parse_json_opt(last.as_str()), "content"));
                let pv = match content {
                    Some(c) => chars_of(c.as_str()),
                    None => chars_of("{}"),
                };
                let shown = preview_of(&pv);
                let mut msg = chars_of("[Echo Provider] Tool result was received. Proceeding with: ");
                extend_all(&mut msg, shown.as_slice());
                let words = split_whitespace(msg.as_slice());
                let mut r = word_event_list(&words);
                r.push(LlmEvent::Completed { finish: FinishReason::Stop });
                return r;
            }
        }
        let found = match tools {
            Some(t) => first_call_exec(&query, t),
            None => None,
        };
        match found {
            Some(ev) => ev,
            None => match system {
                Some(si) => text_only_list(&query, history.len(), Some(si.as_str())),
                None => text_only_list(&query, history.len(), None),
            },
        }
    }
}

} // verus!
