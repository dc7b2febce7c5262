//! What a session's derived files hold: the subject and text an event is
//! indexed by, and the session summary (counts by kind, policy outcomes,
//! the latest previews and tool subjects) with the JSON text it is written
//! as. Reading the event log and the index database happens outside.

use vstd::prelude::*;
use crate::json::{get_member, json_value, member_of, parse_json_opt, JsonNode};
use crate::logfmt::push_str;
use crate::json::str_lt;
use crate::openai::{node_of, number_u64};
use crate::provider::lit;
use crate::text::{
    char_len, char_utf8_len, chars_of, contains_seq, decimal, decimal_chars, extend_all, lemma_utf8_len_split,
    seq_contains_seq, seq_starts_with, signed_decimal, signed_decimal_chars, starts_with, string_from_chars, trim,
    trim_chars, utf8_len,
};

verus! {

/// Longest preview of an event's text, in bytes.
pub const PREVIEW_MAX: usize = 200;

/// How many tool subjects the summary keeps.
pub const TOOL_SUBJECTS_KEPT: usize = 20;

/// Number of characters at the front of `t` whose UTF-8 encoding fits in
/// `limit` bytes, from character `k` on with `used` bytes taken.
pub open spec fn fitting(t: Seq<char>, k: int, used: nat, limit: nat) -> int
    decreases t.len() - k,
{
    if k < 0 || k >= t.len() || used + char_utf8_len(t[k]) > limit {
        k
    } else {
        fitting(t, k + 1, used + char_utf8_len(t[k]), limit)
    }
}

/// The text trimmed and, when its UTF-8 encoding is longer than `max - 3`
/// bytes, cut at the last character boundary within that and ended with
/// `...`.
pub open spec fn spec_truncate(s: Seq<char>, max: nat) -> Seq<char> {
    let t = trim(s);
    let limit: nat = if max >= 3 { (max - 3) as nat } else { 0 };
    if utf8_len(t) <= limit {
        t
    } else {
        t.take(fitting(t, 0, 0, limit)) + "..."@
    }
}

pub proof fn lemma_fitting(t: Seq<char>, k: int, used: nat, limit: nat)
    requires
        0 <= k <= t.len(),
        used == utf8_len(t.take(k)),
    ensures
        k <= fitting(t, k, used, limit) <= t.len(),
    decreases t.len() - k,
{
    if k < t.len() && used + char_utf8_len(t[k]) <= limit {
        lemma_utf8_len_split(t, k);
        lemma_fitting(t, k + 1, used + char_utf8_len(t[k]), limit);
    }
}

/// A text shortened for a preview (see `spec_truncate`).
pub fn truncate_str(s: &str, max: usize) -> (r: String)
    ensures r@ == spec_truncate(s@, max as nat),
{
    let c = chars_of(s);
    let t = trim_chars(c.as_slice());
    let limit: usize = if max >= 3 { max - 3 } else { 0 };
    let total = crate::text::utf8_length(t.as_slice());
    if total <= limit {
        return string_from_chars(t.as_slice());
    }
    let mut k: usize = 0;
    let mut used: usize = 0;
    assert(t@.take(0) =~= Seq::<char>::empty());
    while k < t.len() && char_len(t[k]) <= limit - used
        invariant
            k <= t@.len(),
            used <= limit,
            used as nat == utf8_len(t@.take(k as int)),
            fitting(t@, k as int, used as nat, limit as nat) == fitting(t@, 0, 0, limit as nat),
        decreases t.len() - k,
    {
        proof { lemma_utf8_len_split(t@, k as int); }
        used = used + char_len(t[k]);
        k = k + 1;
    }
    let mut v = crate::text::slice_to_vec(t.as_slice(), 0, k);
    push_str(&mut v, "...");
    string_from_chars(v.as_slice())
}

/// The name a session goes by: its directory's last component, or
/// `unknown`.
pub fn session_id_from_dir(session_dir: &str) -> (r: String)
    ensures
        r@ == match crate::cli::path_file_name(session_dir@) {
            Some(n) => n,
            None => "unknown"@,
        },
{
    match crate::cli::file_name_of(session_dir) {
        Some(n) => string_from_chars(n.as_slice()),
        None => String::from_str("unknown"),
    }
}

/// A string member of a payload, or the empty text.
pub open spec fn str_or_empty(v: Option<JsonNode>, key: Seq<char>) -> Seq<char> {
    match crate::json::text_as_str(get_member(v, key)) {
        Some(s) => s,
        None => seq![],
    }
}

/// An unsigned member of a payload, or 0.
pub open spec fn u64_or_zero(v: Option<JsonNode>, key: Seq<char>) -> u64 {
    match number_u64(node_of(get_member(v, key))) {
        Some(n) => n,
        None => 0,
    }
}

/// The subject and text an event is indexed by, from its kind and payload
/// (JSON text): a policy decision by its status and reason and the command
/// (or tool) it was about; a context pack by its counts; a tool event by the
/// tool's name and its arguments; any other event by its kind alone.
pub open spec fn spec_subject_and_text(kind: Seq<char>, payload: Seq<char>) -> (Seq<char>, Seq<char>) {
    let v = json_value(payload);
    if kind == "policy.evaluated"@ {
        let subject = trim(str_or_empty(v, "status"@) + " "@ + str_or_empty(v, "reason"@));
        let text = match crate::json::text_as_str(get_member(node_of(get_member(v, "details"@)), "command"@)) {
            Some(c) => c,
            None => str_or_empty(v, "tool_name"@),
        };
        (subject, spec_truncate(text, 200))
    } else if kind == "context.pack_built"@ {
        ("context pack built"@, "addons="@ + decimal(u64_or_zero(v, "addons_count"@) as nat) + " attachments="@
            + decimal(u64_or_zero(v, "attachments_count"@) as nat))
    } else if seq_starts_with(kind, "tool."@) {
        let named = match get_member(v, "tool_name"@) {
            Some(t) => Some(t),
            None => get_member(v, "tool"@),
        };
        let name = match crate::json::text_as_str(named) {
            Some(n) => n,
            None => kind,
        };
        let args = match get_member(v, "args"@) {
            Some(a) => a,
            None => seq![],
        };
        ("tool "@ + name, spec_truncate(args, 200))
    } else {
        (kind, seq![])
    }
}

fn is_text(s: &[char], lit: &str) -> (r: bool)
    ensures r == (s@ == lit@),
{
    let l = chars_of(lit);
    if s.len() != l.len() {
        return false;
    }
    let r = starts_with(s, l.as_slice());
    proof {
        if s@ == l@ {
            assert(s@.take(l@.len() as int) =~= s@);
        }
        if r {
            assert(s@ =~= l@);
        }
    }
    r
}

fn same_chars(a: &[char], b: &[char]) -> (r: bool)
    ensures r == (a@ == b@),
{
    if a.len() != b.len() {
        return false;
    }
    let r = starts_with(a, b);
    proof {
        if a@ == b@ {
            assert(a@.take(b@.len() as int) =~= a@);
        }
        if r {
            assert(a@ =~= b@);
        }
    }
    r
}

fn str_member_or_empty(v: &Option<JsonNode>, key: &str) -> (r: String)
    ensures r@ == str_or_empty(*v, key@),
{
    match crate::json::as_str_of(&member_of(v, key)) {
        Some(s) => s,
        None => String::new(),
    }
}

fn u64_member_or_zero(v: &Option<JsonNode>, key: &str) -> (r: u64)
    ensures r == u64_or_zero(*v, key@),
{
    let n = match member_of(v, key) {
        Some(t) => parse_json_opt(t.as_str()),
        None => None,
    };
    match n {
        Some(JsonNode::Number(t)) => {
            let c = chars_of(t.as_str());
            match crate::text::parse_unsigned_chars(c.as_slice(), u64::MAX) {
                Some(x) => x,
                None => 0,
            }
        },
        _ => 0,
    }
}

/// The subject and text an event is indexed by (see `spec_subject_and_text`).
pub fn subject_and_text_from_payload(kind: &str, payload: &str) -> (r: (String, String))
    ensures (r.0@, r.1@) == spec_subject_and_text(kind@, payload@),
{
    let k = chars_of(kind);
    let v = parse_json_opt(payload);
    if is_text(k.as_slice(), "policy.evaluated") {
        let mut s = chars_of(str_member_or_empty(&v, "status").as_str());
        push_str(&mut s, " ");
        push_str(&mut s, str_member_or_empty(&v, "reason").as_str());
        let subject = trim_chars(s.as_slice());
        let details = match member_of(&v, "details") {
            Some(t) => parse_json_opt(t.as_str()),
            None => None,
        };
        let text = match crate::json::as_str_of(&member_of(&details, "command")) {
            Some(c) => c,
            None => str_member_or_empty(&v, "tool_name"),
        };
        (string_from_chars(subject.as_slice()), truncate_str(text.as_str(), 200))
    } else if is_text(k.as_slice(), "context.pack_built") {
        let mut t = chars_of("addons=");
        let a = decimal_chars(u64_member_or_zero(&v, "addons_count"));
        extend_all(&mut t, a.as_slice());
        push_str(&mut t, " attachments=");
        let b = decimal_chars(u64_member_or_zero(&v, "attachments_count"));
        extend_all(&mut t, b.as_slice());
        (String::from_str("context pack built"), string_from_chars(t.as_slice()))
    } else if starts_with(k.as_slice(), chars_of("tool.").as_slice()) {
        let named = match member_of(&v, "tool_name") {
            Some(t) => Some(t),
            None => member_of(&v, "tool"),
        };
        let name = match crate::json::as_str_of(&named) {
            Some(n) => n,
            None => String::from_str(kind),
        };
        let args = match member_of(&v, "args") {
            Some(a) => a,
            None => String::new(),
        };
        let mut s = chars_of("tool ");
        push_str(&mut s, name.as_str());
        (string_from_chars(s.as_slice()), truncate_str(args.as_str(), 200))
    } else {
        (String::from_str(kind), String::new())
    }
}

// ---------------------------------------------------------------------
// The session summary.

/// The summary gathered from a session's events.
pub struct SessionSummary {
    /// Events of each kind, by kind in key order.
    pub counts_by_kind: Vec<(String, u64)>,
    pub blocked_count: u64,
    pub warn_count: u64,
    pub last_ts_ms: Option<i64>,
    pub last_user_query_preview: Option<String>,
    pub last_assistant_text_preview: Option<String>,
    /// The subjects of the tool events, in order.
    pub tool_subjects: Vec<String>,
    /// How many events were taken.
    pub events: u64,
}

pub struct SummaryView {
    pub counts: Seq<(Seq<char>, u64)>,
    pub blocked: u64,
    pub warn: u64,
    pub last_ts: Option<i64>,
    pub user: Option<Seq<char>>,
    pub assistant: Option<Seq<char>>,
    pub tools: Seq<Seq<char>>,
    pub events: u64,
}

pub open spec fn counts_view(v: Seq<(String, u64)>) -> Seq<(Seq<char>, u64)> {
    v.map_values(|e: (String, u64)| (e.0@, e.1))
}

pub open spec fn summary_view(s: SessionSummary) -> SummaryView {
    SummaryView {
        counts: counts_view(s.counts_by_kind@),
        blocked: s.blocked_count,
        warn: s.warn_count,
        last_ts: s.last_ts_ms,
        user: crate::json::opt_chars(s.last_user_query_preview),
        assistant: crate::json::opt_chars(s.last_assistant_text_preview),
        tools: s.tool_subjects@.map_values(|t: String| t@),
        events: s.events,
    }
}

/// One more event of kind `k` in counts kept in key order.
pub open spec fn bump(es: Seq<(Seq<char>, u64)>, k: Seq<char>) -> Seq<(Seq<char>, u64)>
    decreases es.len(),
{
    if es.len() == 0 {
        seq![(k, 1u64)]
    } else if es[0].0 == k {
        seq![(k, (es[0].1 + 1) as u64)] + es.drop_first()
    } else if str_lt(k, es[0].0) {
        seq![(k, 1u64)] + es
    } else {
        seq![es[0]] + bump(es.drop_first(), k)
    }
}

/// The counts are below the number of events taken.
pub open spec fn counts_below(es: Seq<(Seq<char>, u64)>, n: u64) -> bool {
    forall|i: int| 0 <= i < es.len() ==> (#[trigger] es[i]).1 <= n
}

/// One event taken into the summary: its kind counted and its time kept; a
/// policy decision counted as blocked or as a warning by its status; the
/// content of a context pack or message kept as the latest user or
/// assistant preview (by the kind's name); a tool event's subject added.
pub open spec fn spec_add_event(s: SummaryView, kind: Seq<char>, ts_ms: i64, subject: Seq<char>, payload: Seq<char>) -> SummaryView {
    let v = json_value(payload);
    let status = str_or_empty(v, "status"@);
    let policy = kind == "policy.evaluated"@;
    let blocked = if policy && status == "blocked"@ { (s.blocked + 1) as u64 } else { s.blocked };
    let warn = if policy && status != "blocked"@ && (status == "warn"@ || seq_contains_seq(status, "warning"@)) {
        (s.warn + 1) as u64
    } else {
        s.warn
    };
    let content = if kind == "context.pack_built"@ || seq_starts_with(kind, "message."@) {
        crate::json::text_as_str(get_member(v, "content"@))
    } else {
        None
    };
    let (user, assistant) = match content {
        Some(c) => if seq_contains_seq(kind, "user"@) {
            (Some(spec_truncate(c, 200)), s.assistant)
        } else if seq_contains_seq(kind, "assistant"@) {
            (s.user, Some(spec_truncate(c, 200)))
        } else {
            (s.user, s.assistant)
        },
        None => (s.user, s.assistant),
    };
    SummaryView {
        counts: bump(s.counts, kind),
        blocked,
        warn,
        last_ts: Some(ts_ms),
        user,
        assistant,
        tools: if seq_starts_with(kind, "tool."@) { s.tools.push(subject) } else { s.tools },
        events: (s.events + 1) as u64,
    }
}

impl SessionSummary {
    pub open spec fn wf(&self) -> bool {
        &&& counts_below(counts_view(self.counts_by_kind@), self.events)
        &&& self.blocked_count <= self.events
        &&& self.warn_count <= self.events
    }

    /// Nothing taken yet.
    pub fn new() -> (r: SessionSummary)
        ensures
            r.wf(),
            summary_view(r) == (SummaryView {
                counts: seq![], blocked: 0, warn: 0, last_ts: None, user: None, assistant: None, tools: seq![], events: 0,
            }),
    {
        let r = SessionSummary {
            counts_by_kind: Vec::new(),
            blocked_count: 0,
            warn_count: 0,
            last_ts_ms: None,
            last_user_query_preview: None,
            last_assistant_text_preview: None,
            tool_subjects: Vec::new(),
            events: 0,
        };
        assert(counts_view(r.counts_by_kind@) =~= Seq::<(Seq<char>, u64)>::empty());
        assert(r.tool_subjects@.map_values(|t: String| t@) =~= Seq::<Seq<char>>::empty());
        r
    }

    fn bump_kind(&mut self, kind: &str)
        requires
            counts_below(counts_view(old(self).counts_by_kind@), old(self).events),
            old(self).events < u64::MAX,
        ensures
            counts_view(final(self).counts_by_kind@) == bump(counts_view(old(self).counts_by_kind@), kind@),
            counts_below(counts_view(final(self).counts_by_kind@), (old(self).events + 1) as u64),
            final(self).events == old(self).events,
            final(self).blocked_count == old(self).blocked_count,
            final(self).warn_count == old(self).warn_count,
            final(self).last_ts_ms == old(self).last_ts_ms,
            final(self).last_user_query_preview == old(self).last_user_query_preview,
            final(self).last_assistant_text_preview == old(self).last_assistant_text_preview,
            final(self).tool_subjects == old(self).tool_subjects,
    {
        let ghost ev = counts_view(self.counts_by_kind@);
        let ghost n = self.events;
        let kc = chars_of(kind);
        let mut j: usize = 0;
        while j < self.counts_by_kind.len()
            invariant
                j <= self.counts_by_kind@.len(),
                ev == counts_view(self.counts_by_kind@),
                counts_below(ev, n),
                n < u64::MAX,
                kc@ == kind@,
                forall|i: int| 0 <= i < j ==> ev[i].0 != kind@ && !str_lt(kind@, #[trigger] ev[i].0),
            ensures
                j <= self.counts_by_kind@.len(),
                ev == counts_view(self.counts_by_kind@),
                forall|i: int| 0 <= i < j ==> ev[i].0 != kind@ && !str_lt(kind@, #[trigger] ev[i].0),
                j == ev.len() || ev[j as int].0 == kind@ || str_lt(kind@, ev[j as int].0),
            decreases self.counts_by_kind.len() - j,
        {
            let ec = chars_of(self.counts_by_kind[j].0.as_str());
            assert(ev[j as int].0 == ec@);
            if same_chars(ec.as_slice(), kc.as_slice()) {
                break;
            }
            if crate::json::str_less(kc.as_slice(), ec.as_slice()) {
                break;
            }
            j = j + 1;
        }
        proof { lemma_bump_at(ev, kind@, j as int); }
        let found = j < self.counts_by_kind.len() && same_chars(chars_of(self.counts_by_kind[j].0.as_str()).as_slice(), kc.as_slice());
        if found {
            let (key, c) = self.counts_by_kind.remove(j);
            assert(c <= n);
            let ghost item = (key@, (c + 1) as u64);
            self.counts_by_kind.insert(j, (key, c + 1));
            proof {
                assert(counts_view(self.counts_by_kind@) =~= ev.take(j as int) + seq![item] + ev.skip(j + 1));
            }
        } else {
            self.counts_by_kind.insert(j, (String::from_str(kind), 1));
            proof {
                assert(counts_view(self.counts_by_kind@) =~= ev.take(j as int) + seq![(kind@, 1u64)] + ev.skip(j as int));
            }
        }
        proof {
            let nv = counts_view(self.counts_by_kind@);
            assert forall|i: int| 0 <= i < nv.len() implies (#[trigger] nv[i]).1 <= n + 1 by {
                if i < j {
                    assert(nv[i] == ev[i]);
                } else if i > j {
                    if found {
                        assert(nv[i] == ev[i]);
                    } else {
                        assert(nv[i] == ev[i - 1]);
                    }
                }
            }
        }
    }

    /// Takes one event (see `spec_add_event`); `subject` is what the event
    /// is indexed by.
    pub fn add_event(&mut self, kind: &str, ts_ms: i64, subject: &str, payload: &str)
        requires
            old(self).wf(),
            old(self).events < u64::MAX,
        ensures
            final(self).wf(),
            summary_view(*final(self)) == spec_add_event(summary_view(*old(self)), kind@, ts_ms, subject@, payload@),
    {
        let ghost before = summary_view(*self);
        self.bump_kind(kind);
        let k = chars_of(kind);
        let v = parse_json_opt(payload);
        let status = chars_of(str_member_or_empty(&v, "status").as_str());
        let policy = is_text(k.as_slice(), "policy.evaluated");
        if policy && is_text(status.as_slice(), "blocked") {
            self.blocked_count = self.blocked_count + 1;
        } else if policy && (is_text(status.as_slice(), "warn") || contains_seq(status.as_slice(), chars_of("warning").as_slice())) {
            self.warn_count = self.warn_count + 1;
        }
        self.last_ts_ms = Some(ts_ms);
        let with_content = is_text(k.as_slice(), "context.pack_built") || starts_with(k.as_slice(), chars_of("message.").as_slice());
        if with_content {
            match crate::json::as_str_of(&member_of(&v, "content")) {
                Some(c) => {
                    if contains_seq(k.as_slice(), chars_of("user").as_slice()) {
                        self.last_user_query_preview = Some(truncate_str(c.as_str(), PREVIEW_MAX));
                    } else if contains_seq(k.as_slice(), chars_of("assistant").as_slice()) {
                        self.last_assistant_text_preview = Some(truncate_str(c.as_str(), PREVIEW_MAX));
                    }
                },
                None => {},
            }
        }
        if starts_with(k.as_slice(), chars_of("tool.").as_slice()) {
            let ghost t0 = self.tool_subjects@;
            self.tool_subjects.push(String::from_str(subject));
            assert(self.tool_subjects@.map_values(|t: String| t@) =~= t0.map_values(|t: String| t@).push(subject@));
        }
        self.events = self.events + 1;
    }
}

pub proof fn lemma_bump_at(es: Seq<(Seq<char>, u64)>, k: Seq<char>, j: int)
    requires
        0 <= j <= es.len(),
        forall|i: int| 0 <= i < j ==> es[i].0 != k && !str_lt(k, #[trigger] es[i].0),
        j == es.len() || es[j].0 == k || str_lt(k, es[j].0),
    ensures
        bump(es, k) == es.take(j) + (if j < es.len() && es[j].0 == k {
            seq![(k, (es[j].1 + 1) as u64)] + es.skip(j + 1)
        } else {
            seq![(k, 1u64)] + es.skip(j)
        }),
    decreases j,
{
    if j == 0 {
        assert(es.take(0) =~= Seq::<(Seq<char>, u64)>::empty());
        assert(es.skip(0) =~= es);
        if es.len() > 0 && es[0].0 == k {
            assert(es.skip(1) =~= es.drop_first());
        }
    } else {
        let t = es.drop_first();
        assert forall|i: int| 0 <= i < j - 1 implies t[i].0 != k && !str_lt(k, #[trigger] t[i].0) by {
            assert(t[i] == es[i + 1]);
        }
        if j - 1 < t.len() {
            assert(t[j - 1] == es[j]);
        }
        lemma_bump_at(t, k, j - 1);
        assert(es.take(j) =~= seq![es[0]] + t.take(j - 1));
        assert(es.skip(j) =~= t.skip(j - 1));
        if j < es.len() {
            assert(es.skip(j + 1) =~= t.skip(j));
        }
    }
}


/// Parts joined with a comma and a line break.
pub open spec fn join_lines(parts: Seq<Seq<char>>) -> Seq<char>
    decreases parts.len(),
{
    if parts.len() == 0 {
        seq![]
    } else if parts.len() == 1 {
        parts[0]
    } else {
        join_lines(parts.drop_last()) + ",\n"@ + parts.last()
    }
}

/// The counts as a pretty-printed object nested one level deep.
pub open spec fn pretty_counts(cs: Seq<(Seq<char>, u64)>) -> Seq<char> {
    if cs.len() == 0 {
        "{}"@
    } else {
        "{\n"@ + join_lines(cs.map_values(|e: (Seq<char>, u64)| "    "@ + lit(e.0) + ": "@ + decimal(e.1 as nat))) + "\n  }"@
    }
}

/// Strings as a pretty-printed array nested one level deep.
pub open spec fn pretty_strings(v: Seq<Seq<char>>) -> Seq<char> {
    if v.len() == 0 {
        "[]"@
    } else {
        "[\n"@ + join_lines(v.map_values(|t: Seq<char>| "    "@ + lit(t))) + "\n  ]"@
    }
}

pub open spec fn opt_text_json(o: Option<Seq<char>>) -> Seq<char> {
    match o {
        Some(t) => lit(t),
        None => "null"@,
    }
}

pub open spec fn opt_i64_json(o: Option<i64>) -> Seq<char> {
    match o {
        Some(n) => signed_decimal(n as int),
        None => "null"@,
    }
}

/// The last `TOOL_SUBJECTS_KEPT` subjects.
pub open spec fn last_subjects(t: Seq<Seq<char>>) -> Seq<Seq<char>> {
    if t.len() > 20 { t.skip(t.len() - 20) } else { t }
}

/// The summary file's text: the summary's members in key order, printed
/// with two-space indentation.
pub open spec fn spec_summary_json(s: SummaryView, session_id: Seq<char>, generated_at_ms: i64) -> Seq<char> {
    "{\n  \"blocked_count\": "@ + decimal(s.blocked as nat)
        + ",\n  \"counts_by_kind\": "@ + pretty_counts(s.counts)
        + ",\n  \"generated_at_ms\": "@ + signed_decimal(generated_at_ms as int)
        + ",\n  \"last_assistant_text_preview\": "@ + opt_text_json(s.assistant)
        + ",\n  \"last_tool_subjects\": "@ + pretty_strings(last_subjects(s.tools))
        + ",\n  \"last_ts_ms\": "@ + opt_i64_json(s.last_ts)
        + ",\n  \"last_user_query_preview\": "@ + opt_text_json(s.user)
        + ",\n  \"session_id\": "@ + lit(session_id)
        + ",\n  \"v\": 1,\n  \"warn_count\": "@ + decimal(s.warn as nat) + "\n}"@
}

fn push_lit(v: &mut Vec<char>, s: &str)
    ensures final(v)@ == old(v)@ + lit(s@),
{
    let q = crate::json::quote(s);
    push_str(v, q.as_str());
}

/// Appends `parts` joined with a comma and a line break.
fn push_lines(out: &mut Vec<char>, parts: &Vec<Vec<char>>)
    ensures final(out)@ == old(out)@ + join_lines(crate::text::vstrs(parts@)),
{
    let ghost o = out@;
    let ghost all = crate::text::vstrs(parts@);
    let mut i: usize = 0;
    assert(all.take(0) =~= Seq::<Seq<char>>::empty());
    while i < parts.len()
        invariant
            i <= parts@.len(),
            all == crate::text::vstrs(parts@),
            out@ == o + join_lines(all.take(i as int)),
        decreases parts.len() - i,
    {
        if i > 0 {
            push_str(out, ",\n");
        }
        extend_all(out, parts[i].as_slice());
        proof {
            let t = all.take(i + 1);
            assert(t.drop_last() =~= all.take(i as int));
            assert(t.last() == parts@[i as int]@);
            if i == 0 {
                assert(all.take(i as int) =~= Seq::<Seq<char>>::empty());
                assert(join_lines(t) == t[0]);
            }
            assert(out@ =~= o + join_lines(t));
        }
        i = i + 1;
    }
    assert(all.take(parts@.len() as int) =~= all);
}

fn push_opt_text(v: &mut Vec<char>, o: &Option<String>)
    ensures final(v)@ == old(v)@ + opt_text_json(crate::json::opt_chars(*o)),
{
    match o {
        Some(t) => push_lit(v, t.as_str()),
        None => push_str(v, "null"),
    }
}

impl SessionSummary {
    /// The summary file's text (see `spec_summary_json`), for the session
    /// `session_id`, made at `generated_at_ms`.
    pub fn to_json(&self, session_id: &str, generated_at_ms: i64) -> (r: String)
        ensures r@ == spec_summary_json(summary_view(*self), session_id@, generated_at_ms),
    {
        let ghost sv = summary_view(*self);
        let mut v = chars_of("{\n  \"blocked_count\": ");
        extend_all(&mut v, decimal_chars(self.blocked_count).as_slice());
        push_str(&mut v, ",\n  \"counts_by_kind\": ");
        let ghost v0 = v@;
        if self.counts_by_kind.len() == 0 {
            push_str(&mut v, "{}");
        } else {
            let mut lines: Vec<Vec<char>> = Vec::new();
            let mut i: usize = 0;
            while i < self.counts_by_kind.len()
                invariant
                    i <= self.counts_by_kind@.len(),
                    sv == summary_view(*self),
                    crate::text::vstrs(lines@) =~= sv.counts.take(i as int).map_values(
                        |e: (Seq<char>, u64)| "    "@ + lit(e.0) + ": "@ + decimal(e.1 as nat)),
                decreases self.counts_by_kind.len() - i,
            {
                let mut l = chars_of("    ");
                push_lit(&mut l, self.counts_by_kind[i].0.as_str());
                push_str(&mut l, ": ");
                extend_all(&mut l, decimal_chars(self.counts_by_kind[i].1).as_slice());
                let ghost before = lines@;
                lines.push(l);
                proof {
                    assert(sv.counts[i as int] == (self.counts_by_kind@[i as int].0@, self.counts_by_kind@[i as int].1));
                    assert(sv.counts.take(i + 1).drop_last() =~= sv.counts.take(i as int));
                    assert(crate::text::vstrs(lines@) =~= crate::text::vstrs(before).push(l@));
                    assert(sv.counts.take(i + 1).map_values(|e: (Seq<char>, u64)| "    "@ + lit(e.0) + ": "@ + decimal(e.1 as nat))
                        =~= sv.counts.take(i as int).map_values(|e: (Seq<char>, u64)| "    "@ + lit(e.0) + ": "@ + decimal(e.1 as nat)).push(l@));
                }
                i = i + 1;
            }
            assert(sv.counts.take(sv.counts.len() as int) =~= sv.counts);
            push_str(&mut v, "{\n");
            push_lines(&mut v, &lines);
            push_str(&mut v, "\n  }");
        }
        assert(v@ =~= v0 + pretty_counts(sv.counts));
        push_str(&mut v, ",\n  \"generated_at_ms\": ");
        extend_all(&mut v, signed_decimal_chars(generated_at_ms).as_slice());
        push_str(&mut v, ",\n  \"last_assistant_text_preview\": ");
        push_opt_text(&mut v, &self.last_assistant_text_preview);
        push_str(&mut v, ",\n  \"last_tool_subjects\": ");
        let n = self.tool_subjects.len();
        let from: usize = if n > 20 { n - 20 } else { 0 };
        let ghost tv = sv.tools;
        let ghost kept = last_subjects(tv);
        assert(kept =~= tv.skip(from as int));
        let ghost v1 = v@;
        if n - from == 0 {
            push_str(&mut v, "[]");
        } else {
            let mut lines: Vec<Vec<char>> = Vec::new();
            let mut i: usize = from;
            while i < n
                invariant
                    from <= i <= n,
                    n == self.tool_subjects@.len(),
                    tv == self.tool_subjects@.map_values(|t: String| t@),
                    crate::text::vstrs(lines@) =~= tv.subrange(from as int, i as int).map_values(|t: Seq<char>| "    "@ + lit(t)),
                decreases n - i,
            {
                let mut l = chars_of("    ");
                push_lit(&mut l, self.tool_subjects[i].as_str());
                let ghost before = lines@;
                lines.push(l);
                proof {
                    assert(tv[i as int] == self.tool_subjects@[i as int]@);
                    assert(tv.subrange(from as int, i + 1) =~= tv.subrange(from as int, i as int).push(tv[i as int]));
                    assert(crate::text::vstrs(lines@) =~= crate::text::vstrs(before).push(l@));
                    assert(tv.subrange(from as int, i + 1).map_values(|t: Seq<char>| "    "@ + lit(t))
                        =~= tv.subrange(from as int, i as int).map_values(|t: Seq<char>| "    "@ + lit(t)).push(l@));
                }
                i = i + 1;
            }
            assert(tv.subrange(from as int, n as int) =~= kept);
            push_str(&mut v, "[\n");
            push_lines(&mut v, &lines);
            push_str(&mut v, "\n  ]");
        }
        assert(v@ =~= v1 + pretty_strings(kept));
        push_str(&mut v, ",\n  \"last_ts_ms\": ");
        let ghost v2 = v@;
        match self.last_ts_ms {
            Some(t) => extend_all(&mut v, signed_decimal_chars(t).as_slice()),
            None => push_str(&mut v, "null"),
        }
        assert(v@ =~= v2 + opt_i64_json(self.last_ts_ms));
        push_str(&mut v, ",\n  \"last_user_query_preview\": ");
        push_opt_text(&mut v, &self.last_user_query_preview);
        push_str(&mut v, ",\n  \"session_id\": ");
        push_lit(&mut v, session_id);
        push_str(&mut v, ",\n  \"v\": 1,\n  \"warn_count\": ");
        extend_all(&mut v, decimal_chars(self.warn_count).as_slice());
        push_str(&mut v, "\n}");
        string_from_chars(v.as_slice())
    }
}

/// A policy decision whose status is exactly `warn` is counted as one more
/// warning and not as blocked; one whose status is `blocked` is counted as
/// one more blocked decision and not as a warning; any other kind of event
/// leaves both counts as they were.
pub proof fn lemma_policy_status_counts(s: SummaryView, kind: Seq<char>, ts_ms: i64, subject: Seq<char>, payload: Seq<char>)
    requires
        s.warn < u64::MAX,
        s.blocked < u64::MAX,
    ensures
        ({
            let r = spec_add_event(s, kind, ts_ms, subject, payload);
            let status = str_or_empty(json_value(payload), "status"@);
            &&& (kind == "policy.evaluated"@ && status == "warn"@) ==> r.warn == s.warn + 1 && r.blocked == s.blocked
            &&& (kind == "policy.evaluated"@ && status == "blocked"@) ==> r.blocked == s.blocked + 1 && r.warn == s.warn
            &&& kind != "policy.evaluated"@ ==> r.warn == s.warn && r.blocked == s.blocked
        }),
{
    reveal_strlit("warn");
    reveal_strlit("blocked");
    assert("warn"@.len() == 4 && "blocked"@.len() == 7);
    assert("warn"@ != "blocked"@);
}


/// A policy decision whose status mentions `warning` (and is not
/// `blocked`) is counted as one more warning.
pub proof fn lemma_policy_warning_counted(s: SummaryView, ts_ms: i64, subject: Seq<char>, payload: Seq<char>, i: int)
    requires
        s.warn < u64::MAX,
        crate::text::occurs_at(str_or_empty(json_value(payload), "status"@), "warning"@, i),
    ensures
        spec_add_event(s, "policy.evaluated"@, ts_ms, subject, payload).warn == s.warn + 1,
        spec_add_event(s, "policy.evaluated"@, ts_ms, subject, payload).blocked == s.blocked,
{
    reveal_strlit("warning");
    reveal_strlit("blocked");
    let status = str_or_empty(json_value(payload), "status"@);
    assert(seq_contains_seq(status, "warning"@));
    assert("warning"@.len() == 7 && "blocked"@.len() == 7);
    if status == "blocked"@ {
        assert(status.subrange(i, i + 7) == "warning"@);
        assert(status.subrange(i, i + 7)[0] == status[i]);
        assert(i == 0);
        assert(status[0] == 'b');
    }
}

} // verus!
