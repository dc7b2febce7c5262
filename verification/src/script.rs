//! The expect-style scripting language: rules that wait for a pattern in
//! what a program prints and answer with text, optionally grouped in named
//! states, and the step logic that runs a parsed script against the lines
//! that come in.
//!
//! A rule reads
//! `[in state "S"] match ("text" | /regex/flags) [timeout N] then send R [goto "T"]`
//! or `... then goto "T"`; a script is rules separated by `;`, and
//! `state "S" { rules }` blocks whose rules hold only in state `S`.

use vstd::prelude::*;
use vstd::utf8::*;
use crate::capture::opt_chars;
use crate::logfmt::{push_str, utf8_text};
use crate::text::{
    chars_of, extend_all, find_char, is_whitespace, is_ws, parse_unsigned_chars, parse_unsigned_upto, seq_starts_with,
    slice_to_vec, split_char, split_on, starts_with, string_from_chars, trim, trim_chars, vstrs,
};

verus! {

broadcast use vstd::utf8::encode_utf8_valid_utf8, vstd::utf8::encode_utf8_decode_utf8;

#[verifier::external_type_specification]
#[verifier::external_body]
pub struct ExRegex(regex::Regex);

/// The text of the error `regex::Regex::new` gives for a pattern (`None`
/// when the pattern compiles).
pub uninterp spec fn regex_new_error(pattern: Seq<char>) -> Option<Seq<char>>;

/// What `regex::Regex::is_match` answers, for the regex compiled from
/// `pattern`, on `text`.
pub uninterp spec fn regex_matches(pattern: Seq<char>, text: Seq<char>) -> bool;

/// The byte offset where the first match `regex::Regex::find` gives ends,
/// for the regex compiled from `pattern`, on `text` (`None`: no match).
pub uninterp spec fn regex_first_match_end(pattern: Seq<char>, text: Seq<char>) -> Option<nat>;

/// A compiled regular expression together with the pattern it was compiled from.
pub struct CompiledRegex {
    source: String,
    re: regex::Regex,
}

impl CompiledRegex {
    /// The pattern the regex was compiled from.
    pub closed spec fn source(&self) -> Seq<char> {
        self.source@
    }

    pub fn source_text(&self) -> (r: &String)
        ensures r@ == self.source(),
    {
        &self.source
    }

    /// `regex::Regex::is_match`; the contract names the answer.
    #[verifier::external_body]
    fn is_match(&self, text: &str) -> (r: bool)
        ensures r == regex_matches(self.source(), text@),
    {
        self.re.is_match(text)
    }

    /// Where the first match ends (`regex::Regex::find`, then `Match::end`).
    /// The crate documents that the offset falls on a character boundary of
    /// the text; the contract claims that and names the offset.
    #[verifier::external_body]
    fn first_match_end(&self, text: &str) -> (r: Option<usize>)
        ensures
            match r {
                Some(e) => regex_first_match_end(self.source(), text@) == Some(e as nat)
                    && is_char_boundary(encode_utf8(text@), e as int),
                None => regex_first_match_end(self.source(), text@) is None,
            },
    {
        self.re.find(text).map(|m| m.end())
    }
}

/// Compiles a pattern (`regex::Regex::new`); the error is its text. The
/// contract names whether it compiles and the error text.
#[verifier::external_body]
fn compile_regex(pattern: &str) -> (r: Result<CompiledRegex, String>)
    ensures
        match regex_new_error(pattern@) {
            None => r matches Ok(c) && c.source() == pattern@,
            Some(m) => r matches Err(e) && e@ == m,
        },
{
    match regex::Regex::new(pattern) {
        Ok(re) => Ok(CompiledRegex { source: pattern.to_string(), re }),
        Err(e) => Err(e.to_string()),
    }
}

/// What a rule waits for.
pub enum Pattern {
    /// Literal text, anywhere in the output.
    String(String),
    /// A regular expression.
    Regex(CompiledRegex),
}

/// A pattern by its text: the literal, or the regex's pattern (flags included).
pub enum PatternView {
    String(Seq<char>),
    Regex(Seq<char>),
}

impl View for Pattern {
    type V = PatternView;

    open spec fn view(&self) -> PatternView {
        match self {
            Pattern::String(s) => PatternView::String(s@),
            Pattern::Regex(r) => PatternView::Regex(r.source()),
        }
    }
}

/// One rule of a script.
pub struct Rule {
    /// The state the rule holds in (`None`: every state).
    pub state: Option<String>,
    pub pattern: Pattern,
    /// The text sent when the pattern is seen.
    pub response: String,
    /// Seconds within which the pattern must be seen.
    pub timeout: Option<u64>,
    /// The state entered after the rule fired.
    pub next_state: Option<String>,
}

pub struct RuleView {
    pub state: Option<Seq<char>>,
    pub pattern: PatternView,
    pub response: Seq<char>,
    pub timeout: Option<u64>,
    pub next_state: Option<Seq<char>>,
}

impl View for Rule {
    type V = RuleView;

    open spec fn view(&self) -> RuleView {
        RuleView {
            state: opt_chars(self.state),
            pattern: self.pattern@,
            response: self.response@,
            timeout: self.timeout,
            next_state: opt_chars(self.next_state),
        }
    }
}

/// A parsed script: the state it starts in and its rules, in order.
pub struct Script {
    pub initial_state: String,
    pub rules: Vec<Rule>,
}

pub struct ScriptView {
    pub initial_state: Seq<char>,
    pub rules: Seq<RuleView>,
}

pub open spec fn rules_view(v: Seq<Rule>) -> Seq<RuleView> {
    v.map_values(|r: Rule| r@)
}

impl View for Script {
    type V = ScriptView;

    open spec fn view(&self) -> ScriptView {
        ScriptView { initial_state: self.initial_state@, rules: rules_view(self.rules@) }
    }
}

/// Whether a pattern is found in `text`: the literal as a substring, or a
/// regex match.
pub open spec fn pattern_matches(p: PatternView, text: Seq<char>) -> bool {
    match p {
        PatternView::String(s) => crate::text::seq_contains_seq(text, s),
        PatternView::Regex(src) => regex_matches(src, text),
    }
}

impl Rule {
    /// Whether the rule's pattern is found in `text`.
    pub fn matches(&self, text: &str) -> (r: bool)
        ensures r == pattern_matches(self.pattern@, text@),
    {
        match &self.pattern {
            Pattern::String(s) => {
                let t = chars_of(text);
                let p = chars_of(s.as_str());
                crate::text::contains_seq(t.as_slice(), p.as_slice())
            },
            Pattern::Regex(re) => re.is_match(text),
        }
    }
}

// ---------------------------------------------------------------------
// Reading one rule.

/// First index at or after `from` holding `c`.
pub open spec fn index_of(s: Seq<char>, from: int, c: char) -> Option<int>
    decreases s.len() - from,
{
    if from < 0 || from >= s.len() {
        None
    } else if s[from] == c {
        Some(from)
    } else {
        index_of(s, from + 1, c)
    }
}

/// First index at or after `from` of whitespace (or of `t` too, when
/// `or_t`), else the length.
pub open spec fn stop_at(s: Seq<char>, from: int, or_t: bool) -> int
    decreases s.len() - from,
{
    if from < 0 || from >= s.len() {
        s.len() as int
    } else if is_ws(s[from]) || (or_t && s[from] == 't') {
        from
    } else {
        stop_at(s, from + 1, or_t)
    }
}

/// For `s` that opens with a quote: the text up to the next quote and
/// what follows that quote (`None`: no closing quote).
pub open spec fn quoted_head(s: Seq<char>) -> Option<(Seq<char>, Seq<char>)> {
    match index_of(s, 1, '"') {
        Some(e) => Some((s.subrange(1, e), s.skip(e + 1))),
        None => None,
    }
}

pub open spec fn opens_with(s: Seq<char>, c: char) -> bool {
    s.len() > 0 && s[0] == c
}

/// The optional `in state "S"` prefix: the state and the rest.
pub open spec fn rule_state(s: Seq<char>) -> Result<(Option<Seq<char>>, Seq<char>), Seq<char>> {
    if seq_starts_with(s, "in state "@) {
        let sr = trim(s.skip("in state "@.len() as int));
        if opens_with(sr, '"') {
            match quoted_head(sr) {
                Some((name, after)) => Ok((Some(name), trim(after))),
                None => Err("Unclosed state name"@),
            }
        } else {
            Err("State name must be quoted"@)
        }
    } else {
        Ok((None, s))
    }
}

/// The regex's flags after the closing `/` at `p`: the characters up to
/// whitespace or a `t`, unless a space follows the `/` at once.
pub open spec fn regex_flags(s: Seq<char>, p: int) -> Seq<char> {
    if p + 1 < s.len() && s[p + 1] != ' ' {
        s.subrange(p + 1, stop_at(s, p + 1, true))
    } else {
        seq![]
    }
}

/// The pattern handed to the regex engine: the `i` and `m` flags as an
/// inline group (an empty group for other flags), then the pattern.
pub open spec fn regex_source(pat: Seq<char>, flags: Seq<char>) -> Seq<char> {
    (if flags.len() > 0 {
        "(?"@ + (if flags.contains('i') { "i"@ } else { seq![] }) + (if flags.contains('m') { "m"@ } else { seq![] })
            + ")"@
    } else {
        seq![]
    }) + pat
}

/// The pattern after `match `: a quoted literal or `/regex/flags`, and the rest.
pub open spec fn rule_pattern(s: Seq<char>) -> Result<(PatternView, Seq<char>), Seq<char>> {
    if opens_with(s, '"') {
        match quoted_head(s) {
            Some((p, after)) => Ok((PatternView::String(p), trim(after))),
            None => Err("Unclosed string pattern"@),
        }
    } else if opens_with(s, '/') {
        match index_of(s, 1, '/') {
            None => Err("Unclosed regex pattern"@),
            Some(p) => {
                let flags = regex_flags(s, p);
                let src = regex_source(s.subrange(1, p), flags);
                match regex_new_error(src) {
                    Some(m) => Err("Invalid regex: "@ + m),
                    None => Ok((PatternView::Regex(src), trim(s.skip(p + 1 + flags.len())))),
                }
            },
        }
    } else {
        Err("Pattern must be a string or regex"@)
    }
}

/// The optional `timeout N`: kept only when `N` is a number.
pub open spec fn rule_timeout(s: Seq<char>) -> (Option<u64>, Seq<char>) {
    if seq_starts_with(s, "timeout "@) {
        let k = "timeout "@.len() as int;
        let e = stop_at(s, k, false);
        match parse_unsigned_upto(s.subrange(k, e), u64::MAX as nat) {
            Some(v) => (Some(v as u64), trim(s.skip(e))),
            None => (None, s),
        }
    } else {
        (None, s)
    }
}

/// The text an escape `\b` stands for in a response: `\n`, `\r`, `\t`, `\\`
/// (and `\"` in a quoted response); any other byte keeps its backslash.
pub open spec fn escaped(b: u8, quoted: bool) -> Seq<char> {
    if b == 0x6e {
        seq!['\n']
    } else if b == 0x72 {
        seq!['\r']
    } else if b == 0x74 {
        seq!['\t']
    } else if b == 0x5c {
        seq!['\\']
    } else if quoted && b == 0x22 {
        seq!['"']
    } else {
        seq!['\\', b as char]
    }
}

/// A quoted response, read byte by byte from `i` (each byte taken as the
/// character of the same number): the text, where reading stopped, and
/// whether the closing quote was found.
pub open spec fn quoted_scan(bs: Seq<u8>, i: int, acc: Seq<char>) -> (Seq<char>, int, bool)
    decreases bs.len() - i,
{
    if i < 0 || i >= bs.len() {
        (acc, i, false)
    } else if bs[i] == 0x5c && i + 1 < bs.len() {
        quoted_scan(bs, i + 2, acc + escaped(bs[i + 1], true))
    } else if bs[i] == 0x22 {
        (acc, i + 1, true)
    } else {
        quoted_scan(bs, i + 1, acc.push(bs[i] as char))
    }
}

/// The bytes of ` goto`.
pub open spec fn goto_bytes() -> Seq<u8> {
    seq![0x20u8, 0x67u8, 0x6fu8, 0x74u8, 0x6fu8]
}

/// An unquoted response, read byte by byte from `i` up to ` goto`: the text
/// and where reading stopped. `None` when looking for ` goto` would cut a
/// character (the text is sliced there).
pub open spec fn unquoted_scan(bs: Seq<u8>, i: int, acc: Seq<char>) -> Option<(Seq<char>, int)>
    decreases bs.len() - i,
{
    if i < 0 || i >= bs.len() {
        Some((acc, i))
    } else if i + 4 < bs.len() && !(is_char_boundary(bs, i) && is_char_boundary(bs, i + 5)) {
        None
    } else if i + 4 < bs.len() && bs.subrange(i, i + 5) == goto_bytes() {
        Some((acc, i))
    } else if bs[i] == 0x5c && i + 1 < bs.len() {
        unquoted_scan(bs, i + 2, acc + escaped(bs[i + 1], false))
    } else {
        unquoted_scan(bs, i + 1, acc.push(bs[i] as char))
    }
}

/// `then send R` or `then goto "T"`: the response, the next state and the
/// rest (`None`: reading the response would cut a character).
pub open spec fn rule_action(s: Seq<char>) -> Option<Result<(Seq<char>, Option<Seq<char>>, Seq<char>), Seq<char>>> {
    if seq_starts_with(s, "then send "@) {
        let r = s.skip("then send "@.len() as int);
        let bs = encode_utf8(r);
        if opens_with(r, '"') {
            let (resp, i, found) = quoted_scan(bs, 1, seq![]);
            Some(Ok((resp, None, if found { trim(decode_utf8(bs.skip(i))) } else { seq![] })))
        } else {
            match unquoted_scan(bs, 0, seq![]) {
                None => None,
                Some((resp, i)) => Some(Ok((resp, None, trim(decode_utf8(bs.skip(i)))))),
            }
        }
    } else if seq_starts_with(s, "then goto "@) {
        let g = trim(s.skip("then goto "@.len() as int));
        if opens_with(g, '"') {
            match quoted_head(g) {
                Some((n, after)) => Some(Ok((seq![], Some(n), trim(after)))),
                None => Some(Err("Unclosed next state name"@)),
            }
        } else {
            Some(Err("Next state name must be quoted"@))
        }
    } else {
        Some(Err("Rule must contain 'then send' or 'then goto'"@))
    }
}

/// The optional trailing `goto "T"`, which overrides the next state.
pub open spec fn rule_goto(s: Seq<char>, next: Option<Seq<char>>) -> Result<Option<Seq<char>>, Seq<char>> {
    if seq_starts_with(s, "goto "@) {
        let g = trim(s.skip("goto "@.len() as int));
        if opens_with(g, '"') {
            match quoted_head(g) {
                Some((n, _)) => Ok(Some(n)),
                None => Err("Unclosed next state name"@),
            }
        } else {
            Err("Next state name must be quoted"@)
        }
    } else {
        Ok(next)
    }
}

/// A rule read from its text: the rule or the reason it is refused
/// (`None`: reading it would cut a character).
pub open spec fn spec_parse_rule(text: Seq<char>) -> Option<Result<RuleView, Seq<char>>> {
    let s = trim(text);
    match rule_state(s) {
        Err(m) => Some(Err(m)),
        Ok((state, rest)) => if !seq_starts_with(rest, "match "@) {
            Some(Err("Rule must start with 'match'"@))
        } else {
            match rule_pattern(rest.skip("match "@.len() as int)) {
                Err(m) => Some(Err(m)),
                Ok((pattern, rest2)) => {
                    let (timeout, rest3) = rule_timeout(rest2);
                    match rule_action(rest3) {
                        None => None,
                        Some(Err(m)) => Some(Err(m)),
                        Some(Ok((response, next, rest4))) => match rule_goto(rest4, next) {
                            Err(m) => Some(Err(m)),
                            Ok(next_state) => Some(Ok(RuleView { state, pattern, response, timeout, next_state })),
                        },
                    }
                },
            }
        },
    }
}


// Executable counterparts of the rule grammar.

fn index_of_exec(s: &[char], from: usize, c: char) -> (r: Option<usize>)
    requires from <= s@.len(),
    ensures
        match r {
            Some(j) => index_of(s@, from as int, c) == Some(j as int) && from <= j < s@.len() && s@[j as int] == c,
            None => index_of(s@, from as int, c) is None,
        },
{
    proof { lemma_index_of_bound(s@, from as int, c); }
    let mut i = from;
    while i < s.len()
        invariant
            from <= i <= s@.len(),
            index_of(s@, i as int, c) == index_of(s@, from as int, c),
        decreases s.len() - i,
    {
        if s[i] == c {
            return Some(i);
        }
        i = i + 1;
    }
    None
}

fn stop_at_exec(s: &[char], from: usize, or_t: bool) -> (r: usize)
    requires from <= s@.len(),
    ensures
        r as int == stop_at(s@, from as int, or_t),
        from <= r <= s@.len(),
{
    let mut i = from;
    while i < s.len()
        invariant
            from <= i <= s@.len(),
            stop_at(s@, i as int, or_t) == stop_at(s@, from as int, or_t),
        decreases s.len() - i,
    {
        if is_whitespace(s[i]) || (or_t && s[i] == 't') {
            return i;
        }
        i = i + 1;
    }
    i
}

fn quoted_head_exec(s: &[char]) -> (r: Option<(Vec<char>, Vec<char>)>)
    requires opens_with(s@, '"'),
    ensures
        match quoted_head(s@) {
            Some((a, b)) => r matches Some((x, y)) && x@ == a && y@ == b,
            None => r is None,
        },
{
    match index_of_exec(s, 1, '"') {
        Some(e) => {
            let n = s.len();
            let tail = slice_to_vec(s, e + 1, n);
            assert(tail@ =~= s@.skip(e + 1));
            Some((slice_to_vec(s, 1, e), tail))
        },
        None => None,
    }
}

pub proof fn lemma_index_of_bound(s: Seq<char>, from: int, c: char)
    ensures
        index_of(s, from, c) matches Some(i) ==> from <= i < s.len() && s[i] == c,
    decreases s.len() - from,
{
    if 0 <= from < s.len() && s[from] != c {
        lemma_index_of_bound(s, from + 1, c);
    }
}

pub proof fn lemma_stop_at_bound(s: Seq<char>, from: int, or_t: bool)
    requires 0 <= from <= s.len(),
    ensures from <= stop_at(s, from, or_t) <= s.len(),
    decreases s.len() - from,
{
    if from < s.len() && !(is_ws(s[from]) || (or_t && s[from] == 't')) {
        lemma_stop_at_bound(s, from + 1, or_t);
    }
}

fn opens_with_exec(s: &[char], c: char) -> (r: bool)
    ensures r == opens_with(s@, c),
{
    s.len() > 0 && s[0] == c
}

/// `s` without its first `n` characters.
fn skip_chars(s: &[char], n: usize) -> (r: Vec<char>)
    requires n <= s@.len(),
    ensures r@ == s@.skip(n as int),
{
    slice_to_vec(s, n, s.len())
}

fn err_text(m: &str) -> (r: Result<(Option<Vec<char>>, Vec<char>), String>)
    ensures r matches Err(e) && e@ == m@,
{
    Err(String::from_str(m))
}

fn state_part(s: &[char]) -> (r: Result<(Option<Vec<char>>, Vec<char>), String>)
    ensures
        match rule_state(s@) {
            Ok((st, rest)) => r matches Ok((x, y)) && y@ == rest
                && match st { Some(n) => x matches Some(v) && v@ == n, None => x is None },
            Err(m) => r matches Err(e) && e@ == m,
        },
{
    let kw = chars_of("in state ");
    if starts_with(s, kw.as_slice()) {
        let sr = trim_chars(skip_chars(s, kw.len()).as_slice());
        if opens_with_exec(sr.as_slice(), '"') {
            match quoted_head_exec(sr.as_slice()) {
                Some((name, after)) => Ok((Some(name), trim_chars(after.as_slice()))),
                None => err_text("Unclosed state name"),
            }
        } else {
            err_text("State name must be quoted")
        }
    } else {
        Ok((None, slice_to_vec(s, 0, s.len())))
    }
}

fn push_flag_group(v: &mut Vec<char>, flags: &[char])
    requires flags@.len() > 0,
    ensures
        final(v)@ == old(v)@ + "(?"@ + (if flags@.contains('i') { "i"@ } else { seq![] })
            + (if flags@.contains('m') { "m"@ } else { seq![] }) + ")"@,
{
    push_str(v, "(?");
    let ghost v1 = v@;
    if crate::text::contains_char(flags, 'i') {
        push_str(v, "i");
    }
    let ghost v2 = v@;
    assert(v2 == v1 + (if flags@.contains('i') { "i"@ } else { seq![] }));
    if crate::text::contains_char(flags, 'm') {
        push_str(v, "m");
    }
    let ghost v3 = v@;
    assert(v3 == v2 + (if flags@.contains('m') { "m"@ } else { seq![] }));
    push_str(v, ")");
}

fn pattern_part(s: &[char]) -> (r: Result<(Pattern, Vec<char>), String>)
    ensures
        match rule_pattern(s@) {
            Ok((p, rest)) => r matches Ok((x, y)) && x@ == p && y@ == rest,
            Err(m) => r matches Err(e) && e@ == m,
        },
{
    if opens_with_exec(s, '"') {
        match quoted_head_exec(s) {
            Some((p, after)) => Ok((Pattern::String(string_from_chars(p.as_slice())), trim_chars(after.as_slice()))),
            None => Err(String::from_str("Unclosed string pattern")),
        }
    } else if opens_with_exec(s, '/') {
        match index_of_exec(s, 1, '/') {
            None => Err(String::from_str("Unclosed regex pattern")),
            Some(p) => {
                proof { lemma_index_of_bound(s@, 1, '/'); }
                let n = s.len();
                let flags: Vec<char> = if p + 1 < n && s[p + 1] != ' ' {
                    let fe = stop_at_exec(s, p + 1, true);
                    slice_to_vec(s, p + 1, fe)
                } else {
                    Vec::new()
                };
                assert(flags@ == regex_flags(s@, p as int));
                let mut src: Vec<char> = Vec::new();
                if flags.len() > 0 {
                    push_flag_group(&mut src, flags.as_slice());
                }
                let pat = slice_to_vec(s, 1, p);
                extend_all(&mut src, pat.as_slice());
                assert(src@ =~= regex_source(s@.subrange(1, p as int), flags@));
                let src_text = string_from_chars(src.as_slice());
                match compile_regex(src_text.as_str()) {
                    Ok(re) => {
                        proof { lemma_stop_at_bound(s@, p + 1, true); }
                        assert(p + 1 + flags@.len() <= s@.len());
                        let rest = trim_chars(skip_chars(s, p + 1 + flags.len()).as_slice());
                        Ok((Pattern::Regex(re), rest))
                    },
                    Err(e) => {
                        let mut m = chars_of("Invalid regex: ");
                        push_str(&mut m, e.as_str());
                        Err(string_from_chars(m.as_slice()))
                    },
                }
            },
        }
    } else {
        Err(String::from_str("Pattern must be a string or regex"))
    }
}

fn timeout_part(s: &[char]) -> (r: (Option<u64>, Vec<char>))
    ensures r.0 == rule_timeout(s@).0, r.1@ == rule_timeout(s@).1,
{
    let kw = chars_of("timeout ");
    if starts_with(s, kw.as_slice()) {
        let k = kw.len();
        let e = stop_at_exec(s, k, false);
        let digits = slice_to_vec(s, k, e);
        match parse_unsigned_chars(digits.as_slice(), u64::MAX) {
            Some(v) => (Some(v), trim_chars(skip_chars(s, e).as_slice())),
            None => (None, slice_to_vec(s, 0, s.len())),
        }
    } else {
        (None, slice_to_vec(s, 0, s.len()))
    }
}

fn push_escaped(v: &mut Vec<char>, b: u8, quoted: bool)
    ensures final(v)@ == old(v)@ + escaped(b, quoted),
{
    if b == 0x6e {
        v.push('\n');
    } else if b == 0x72 {
        v.push('\r');
    } else if b == 0x74 {
        v.push('\t');
    } else if b == 0x5c {
        v.push('\\');
    } else if quoted && b == 0x22 {
        v.push('"');
    } else {
        v.push('\\');
        v.push(b as char);
    }
    assert(final(v)@ =~= old(v)@ + escaped(b, quoted));
}

fn scan_quoted(bs: &[u8]) -> (r: (Vec<char>, usize, bool))
    ensures (r.0@, r.1 as int, r.2) == quoted_scan(bs@, 1, seq![]),
{
    let mut out: Vec<char> = Vec::new();
    let mut i: usize = 1;
    if bs.len() < 1 {
        return (out, i, false);
    }
    while i < bs.len()
        invariant
            1 <= i <= bs@.len(),
            quoted_scan(bs@, i as int, out@) == quoted_scan(bs@, 1, seq![]),
        decreases bs.len() - i,
    {
        if bs[i] == 0x5c && i + 1 < bs.len() {
            push_escaped(&mut out, bs[i + 1], true);
            i = i + 2;
        } else if bs[i] == 0x22 {
            return (out, i + 1, true);
        } else {
            out.push(bs[i] as char);
            i = i + 1;
        }
    }
    (out, i, false)
}

fn scan_unquoted(st: &str) -> (r: Option<(Vec<char>, usize)>)
    ensures
        match unquoted_scan(encode_utf8(st@), 0, seq![]) {
            Some((t, i)) => r matches Some((x, j)) && x@ == t && j as int == i,
            None => r is None,
        },
{
    let bs = st.as_bytes();
    let ghost b = encode_utf8(st@);
    assert(bs@ == b);
    let mut out: Vec<char> = Vec::new();
    let mut i: usize = 0;
    let goto_b: [u8; 5] = [0x20u8, 0x67u8, 0x6fu8, 0x74u8, 0x6fu8];
    assert(goto_b@ =~= goto_bytes());
    while i < bs.len()
        invariant
            i <= bs@.len(),
            bs@ == b,
            b == encode_utf8(st@),
            goto_b@ == goto_bytes(),
            unquoted_scan(b, i as int, out@) == unquoted_scan(b, 0, seq![]),
        decreases bs.len() - i,
    {
        if bs.len() > 4 && i < bs.len() - 4 {
            if !(st.is_char_boundary(i) && st.is_char_boundary(i + 5)) {
                return None;
            }
            if crate::text::has_at_bytes(bs, i, goto_b.as_slice()) {
                return Some((out, i));
            }
        }
        if bs[i] == 0x5c && i + 1 < bs.len() {
            push_escaped(&mut out, bs[i + 1], false);
            i = i + 2;
        } else {
            out.push(bs[i] as char);
            i = i + 1;
        }
    }
    Some((out, i))
}

/// A byte that is a whole character (ASCII) ends at a character boundary.
pub proof fn lemma_ascii_byte_ends_char(bs: Seq<u8>, i: int)
    requires
        valid_utf8(bs),
        1 <= i <= bs.len(),
        bs[i - 1] < 0x80,
    ensures
        is_char_boundary(bs, i),
    decreases bs.len(),
{
    if i == bs.len() {
        is_char_boundary_start_end_of_seq(bs);
    } else {
        let l = length_of_first_scalar(bs);
        let tail = pop_first_scalar(bs);
        assert(valid_first_scalar(bs) && valid_utf8(tail));
        assert(1 <= l <= bs.len());
        assert(tail.len() == bs.len() - l);
        if i > l {
            assert(tail[i - l - 1] == bs[i - 1]);
            lemma_ascii_byte_ends_char(tail, i - l);
            assert(is_char_boundary(bs, i) == is_char_boundary(tail, i - l));
        } else if i < l {
            if i - 1 == 0 {
                assert(is_leading_byte_width_1(bs[0]));
            } else {
                assert(is_continuation_byte(bs[i - 1]));
            }
            assert(false);
        } else {
            assert(is_char_boundary(bs, i) == is_char_boundary(tail, 0));
        }
    }
}

/// The text of `bs` from byte `i` on.
fn text_from(bs: &[u8], i: usize) -> (r: Vec<char>)
    requires
        valid_utf8(bs@),
        is_char_boundary(bs@, i as int),
    ensures
        r@ == decode_utf8(bs@.skip(i as int)),
{
    proof {
        vstd::utf8::valid_utf8_split(bs@, i as int);
        assert(bs@.subrange(i as int, bs@.len() as int) =~= bs@.skip(i as int));
    }
    let tail = slice_to_vec(bs, i, bs.len());
    match utf8_text(tail.as_slice()) {
        Some(t) => chars_of(t.as_str()),
        None => Vec::new(),
    }
}

fn action_part(s: &[char]) -> (r: Option<Result<(Vec<char>, Option<Vec<char>>, Vec<char>), String>>)
    ensures
        match rule_action(s@) {
            None => r is None,
            Some(Err(m)) => r matches Some(Err(e)) && e@ == m,
            Some(Ok((resp, next, rest))) => r matches Some(Ok((a, b, c))) && a@ == resp && c@ == rest
                && match next { Some(n) => b matches Some(v) && v@ == n, None => b is None },
        },
{
    let send = chars_of("then send ");
    let goto_kw = chars_of("then goto ");
    if starts_with(s, send.as_slice()) {
        let rc = skip_chars(s, send.len());
        let st = string_from_chars(rc.as_slice());
        let ghost bsv = encode_utf8(rc@);
        if opens_with_exec(rc.as_slice(), '"') {
            let bs = st.as_str().as_bytes();
            assert(bs@ == bsv);
            let (resp, i, found) = scan_quoted(bs);
            if found {
                proof {
                    lemma_quoted_scan_found(bsv, 1, seq![]);
                    lemma_ascii_byte_ends_char(bsv, i as int);
                }
                let after = text_from(bs, i);
                Some(Ok((resp, None, trim_chars(after.as_slice()))))
            } else {
                Some(Ok((resp, None, Vec::new())))
            }
        } else {
            match scan_unquoted(st.as_str()) {
                None => None,
                Some((resp, i)) => {
                    let bs = st.as_str().as_bytes();
                    proof { lemma_unquoted_scan_end(bsv, 0, seq![]); }
                    let after = text_from(bs, i);
                    Some(Ok((resp, None, trim_chars(after.as_slice()))))
                },
            }
        }
    } else if starts_with(s, goto_kw.as_slice()) {
        let g = trim_chars(skip_chars(s, goto_kw.len()).as_slice());
        if opens_with_exec(g.as_slice(), '"') {
            match quoted_head_exec(g.as_slice()) {
                Some((n, after)) => Some(Ok((Vec::new(), Some(n), trim_chars(after.as_slice())))),
                None => Some(Err(String::from_str("Unclosed next state name"))),
            }
        } else {
            Some(Err(String::from_str("Next state name must be quoted")))
        }
    } else {
        Some(Err(String::from_str("Rule must contain 'then send' or 'then goto'")))
    }
}

pub proof fn lemma_quoted_scan_found(bs: Seq<u8>, i: int, acc: Seq<char>)
    requires 0 <= i,
    ensures
        ({
            let (t, j, found) = quoted_scan(bs, i, acc);
            found ==> 1 <= j <= bs.len() && bs[j - 1] == 0x22
        }),
    decreases bs.len() - i,
{
    if i < bs.len() {
        if bs[i] == 0x5c && i + 1 < bs.len() {
            lemma_quoted_scan_found(bs, i + 2, acc + escaped(bs[i + 1], true));
        } else if bs[i] != 0x22 {
            lemma_quoted_scan_found(bs, i + 1, acc.push(bs[i] as char));
        }
    }
}

pub proof fn lemma_unquoted_scan_end(bs: Seq<u8>, i: int, acc: Seq<char>)
    requires 0 <= i <= bs.len(), valid_utf8(bs),
    ensures
        unquoted_scan(bs, i, acc) matches Some((t, j)) ==> 0 <= j <= bs.len() && is_char_boundary(bs, j),
    decreases bs.len() - i,
{
    if i >= bs.len() {
        is_char_boundary_start_end_of_seq(bs);
    } else if i + 4 < bs.len() && !(is_char_boundary(bs, i) && is_char_boundary(bs, i + 5)) {
    } else if i + 4 < bs.len() && bs.subrange(i, i + 5) == goto_bytes() {
    } else if bs[i] == 0x5c && i + 1 < bs.len() {
        lemma_unquoted_scan_end(bs, i + 2, acc + escaped(bs[i + 1], false));
    } else {
        lemma_unquoted_scan_end(bs, i + 1, acc.push(bs[i] as char));
    }
}

fn goto_part(s: &[char], next: Option<Vec<char>>) -> (r: Result<Option<Vec<char>>, String>)
    ensures
        match rule_goto(s@, match next { Some(v) => Some(v@), None => None }) {
            Ok(n) => r matches Ok(x) && match n { Some(t) => x matches Some(v) && v@ == t, None => x is None },
            Err(m) => r matches Err(e) && e@ == m,
        },
{
    let kw = chars_of("goto ");
    if starts_with(s, kw.as_slice()) {
        let g = trim_chars(skip_chars(s, kw.len()).as_slice());
        if opens_with_exec(g.as_slice(), '"') {
            match quoted_head_exec(g.as_slice()) {
                Some((n, _)) => Ok(Some(n)),
                None => Err(String::from_str("Unclosed next state name")),
            }
        } else {
            Err(String::from_str("Next state name must be quoted"))
        }
    } else {
        Ok(next)
    }
}

fn opt_string(v: Option<Vec<char>>) -> (r: Option<String>)
    ensures
        match v { Some(x) => r matches Some(s) && s@ == x@, None => r is None },
{
    match v {
        Some(x) => Some(string_from_chars(x.as_slice())),
        None => None,
    }
}

/// Reads one rule, or tells why it is refused; `None` where the reading
/// would cut a character in two (see `spec_parse_rule`).
pub fn try_parse_rule(text: &str) -> (r: Option<Result<Rule, String>>)
    ensures
        match spec_parse_rule(text@) {
            None => r is None,
            Some(Ok(v)) => r matches Some(Ok(x)) && x@ == v,
            Some(Err(m)) => r matches Some(Err(e)) && e@ == m,
        },
{
    let c = chars_of(text);
    let s = trim_chars(c.as_slice());
    let (state, rest) = match state_part(s.as_slice()) {
        Ok(x) => x,
        Err(e) => return Some(Err(e)),
    };
    let kw = chars_of("match ");
    if !starts_with(rest.as_slice(), kw.as_slice()) {
        return Some(Err(String::from_str("Rule must start with 'match'")));
    }
    let after_kw = skip_chars(rest.as_slice(), kw.len());
    let (pattern, rest2) = match pattern_part(after_kw.as_slice()) {
        Ok(x) => x,
        Err(e) => return Some(Err(e)),
    };
    let (timeout, rest3) = timeout_part(rest2.as_slice());
    let (response, next, rest4) = match action_part(rest3.as_slice()) {
        None => return None,
        Some(Err(e)) => return Some(Err(e)),
        Some(Ok(x)) => x,
    };
    let next_state = match goto_part(rest4.as_slice(), next) {
        Ok(n) => n,
        Err(e) => return Some(Err(e)),
    };
    let rule = Rule {
        state: opt_string(state),
        pattern,
        response: string_from_chars(response.as_slice()),
        timeout,
        next_state: opt_string(next_state),
    };
    Some(Ok(rule))
}

// ---------------------------------------------------------------------
// Reading a script.

/// A rule of a state block takes the block's state.
pub open spec fn with_state(r: RuleView, state: Option<Seq<char>>) -> RuleView {
    match state {
        Some(s) => RuleView { state: Some(s), ..r },
        None => r,
    }
}

/// The rules of `;`-separated parts, in order: empty parts (after trimming)
/// are skipped, the first refused rule is the error (`None`: reading a rule
/// would cut a character).
pub open spec fn block_rules(parts: Seq<Seq<char>>, state: Option<Seq<char>>) -> Option<Result<Seq<RuleView>, Seq<char>>>
    decreases parts.len(),
{
    if parts.len() == 0 {
        Some(Ok(seq![]))
    } else {
        let p = trim(parts[0]);
        if p.len() == 0 {
            block_rules(parts.drop_first(), state)
        } else {
            match spec_parse_rule(p) {
                None => None,
                Some(Err(m)) => Some(Err(m)),
                Some(Ok(r)) => match block_rules(parts.drop_first(), state) {
                    None => None,
                    Some(Err(m)) => Some(Err(m)),
                    Some(Ok(rs)) => Some(Ok(seq![with_state(r, state)] + rs)),
                },
            }
        }
    }
}

/// The rules of a state block's text (see `block_rules`).
pub open spec fn spec_block(block: Seq<char>, state: Option<Seq<char>>) -> Option<Result<Seq<RuleView>, Seq<char>>> {
    block_rules(split_char(block, ';'), state)
}

/// Rules read so far in front of what the rest gives.
pub open spec fn prepend(prefix: Seq<RuleView>, r: Option<Result<Seq<RuleView>, Seq<char>>>) -> Option<Result<Seq<RuleView>, Seq<char>>> {
    match r {
        Some(Ok(rs)) => Some(Ok(prefix + rs)),
        other => other,
    }
}

fn rules_in_parts(parts: &Vec<Vec<char>>, state: &Option<String>) -> (r: Option<Result<Vec<Rule>, String>>)
    ensures
        match block_rules(vstrs(parts@), opt_chars(*state)) {
            None => r is None,
            Some(Ok(v)) => r matches Some(Ok(x)) && rules_view(x@) == v,
            Some(Err(m)) => r matches Some(Err(e)) && e@ == m,
        },
{
    let ghost all = vstrs(parts@);
    let ghost st = opt_chars(*state);
    let mut out: Vec<Rule> = Vec::new();
    let mut k: usize = 0;
    assert(all.skip(0) =~= all);
    while k < parts.len()
        invariant
            k <= parts@.len(),
            all == vstrs(parts@),
            st == opt_chars(*state),
            block_rules(all, st) == prepend(rules_view(out@), block_rules(all.skip(k as int), st)),
        decreases parts.len() - k,
    {
        let ghost rest = all.skip(k as int);
        assert(rest[0] == parts@[k as int]@);
        assert(rest.drop_first() =~= all.skip(k + 1));
        let p = trim_chars(parts[k].as_slice());
        if p.len() > 0 {
            let ps = string_from_chars(p.as_slice());
            match try_parse_rule(ps.as_str()) {
                None => return None,
                Some(Err(e)) => return Some(Err(e)),
                Some(Ok(rule)) => {
                    let mut rule = rule;
                    match state {
                        Some(name) => {
                            rule.state = Some(name.clone());
                        },
                        None => {},
                    }
                    let ghost before = out@;
                    out.push(rule);
                    proof {
                        assert(rules_view(out@) =~= rules_view(before).push(rule@));
                        let tail = block_rules(all.skip(k + 1), st);
                        match tail {
                            Some(Ok(rs)) => {
                                assert(rules_view(before) + (seq![rule@] + rs) =~= rules_view(out@) + rs);
                            },
                            _ => {},
                        }
                    }
                },
            }
        }
        k = k + 1;
    }
    assert(all.skip(parts@.len() as int) =~= Seq::<Seq<char>>::empty());
    assert(rules_view(out@) + Seq::<RuleView>::empty() =~= rules_view(out@));
    Some(Ok(out))
}

/// Reads the rules of a state block's text, giving each the state.
pub fn try_parse_rules_in_block(block: &str, state: Option<String>) -> (r: Option<Result<Vec<Rule>, String>>)
    ensures
        match spec_block(block@, opt_chars(state)) {
            None => r is None,
            Some(Ok(v)) => r matches Some(Ok(x)) && rules_view(x@) == v,
            Some(Err(m)) => r matches Some(Err(e)) && e@ == m,
        },
{
    let c = chars_of(block);
    let parts = split_on(c.as_slice(), ';');
    rules_in_parts(&parts, &state)
}

/// First index at or after `i` that is not whitespace (or the length).
pub open spec fn skip_ws_from(c: Seq<char>, i: int) -> int
    decreases c.len() - i,
{
    if i < 0 || i >= c.len() || !is_ws(c[i]) {
        i
    } else {
        skip_ws_from(c, i + 1)
    }
}

/// Where a state name that starts at `i` ends: the next quote, a backslash
/// skipping the character after it.
pub open spec fn name_end(c: Seq<char>, i: int) -> int
    decreases c.len() - i,
{
    if i < 0 || i >= c.len() || c[i] == '"' {
        i
    } else if c[i] == '\\' && i + 1 < c.len() {
        name_end(c, i + 2)
    } else {
        name_end(c, i + 1)
    }
}

/// The brace that closes a block, scanning from `i` at depth `d`: where the
/// scan stopped and the depth there (positive: never closed).
pub open spec fn block_close(c: Seq<char>, i: int, d: int) -> (int, int)
    decreases c.len() - i,
{
    if i < 0 || i >= c.len() || d <= 0 {
        (i, d)
    } else {
        let d2 = if c[i] == '{' { d + 1 } else if c[i] == '}' { d - 1 } else { d };
        if d2 > 0 {
            block_close(c, i + 1, d2)
        } else {
            (i, d2)
        }
    }
}

/// Past the whitespace from `i`, and past one `;` there.
pub open spec fn past_semicolon(c: Seq<char>, i: int) -> int {
    let j = skip_ws_from(c, i);
    if 0 <= j < c.len() && c[j] == ';' { j + 1 } else { j }
}

/// The bytes of `state `.
pub open spec fn state_kw() -> Seq<u8> {
    seq![0x73u8, 0x74u8, 0x61u8, 0x74u8, 0x65u8, 0x20u8]
}

pub proof fn lemma_skip_ws(c: Seq<char>, i: int)
    requires 0 <= i <= c.len(),
    ensures i <= skip_ws_from(c, i) <= c.len(),
    decreases c.len() - i,
{
    if i < c.len() && is_ws(c[i]) {
        lemma_skip_ws(c, i + 1);
    }
}

pub proof fn lemma_name_end(c: Seq<char>, i: int)
    requires 0 <= i <= c.len(),
    ensures i <= name_end(c, i) <= c.len(),
    decreases c.len() - i,
{
    if i < c.len() && c[i] != '"' {
        if c[i] == '\\' && i + 1 < c.len() {
            lemma_name_end(c, i + 2);
        } else {
            lemma_name_end(c, i + 1);
        }
    }
}

pub proof fn lemma_block_close(c: Seq<char>, i: int, d: int)
    requires 0 <= i <= c.len(), d > 0,
    ensures
        i <= block_close(c, i, d).0 <= c.len(),
        block_close(c, i, d).1 <= 0 ==> block_close(c, i, d).0 < c.len(),
    decreases c.len() - i,
{
    if i < c.len() {
        let d2 = if c[i] == '{' { d + 1 } else if c[i] == '}' { d - 1 } else { d };
        if d2 > 0 {
            lemma_block_close(c, i + 1, d2);
        }
    }
}

pub proof fn lemma_past_semicolon(c: Seq<char>, i: int)
    requires 0 <= i <= c.len(),
    ensures i <= past_semicolon(c, i) <= c.len(),
{
    lemma_skip_ws(c, i);
}

/// A script read from index `i` (characters `c`, UTF-8 bytes `b`), with the
/// rules and initial state found so far. The script is cut into pieces by
/// character positions that are used as byte offsets, so a piece is taken
/// from the bytes; `None` where such an offset falls inside a character.
pub open spec fn script_from(c: Seq<char>, b: Seq<u8>, i: int, rules: Seq<RuleView>, init: Seq<char>) -> Option<Result<ScriptView, Seq<char>>>
    decreases c.len() - i,
{
    if i < 0 || i > c.len() {
        None
    } else {
        let i0 = skip_ws_from(c, i);
        proof { lemma_skip_ws(c, i); }
        if i0 >= c.len() {
            Some(Ok(ScriptView { initial_state: init, rules }))
        } else if !is_char_boundary(b, i0) {
            None
        } else if crate::text::occurs_at(b, state_kw(), i0) {
            let j = skip_ws_from(c, i0 + 6);
            if i0 + 6 > c.len() || j >= c.len() || c[j] != '"' {
                Some(Err("State name must be quoted"@))
            } else {
                proof { lemma_skip_ws(c, i0 + 6); }
                let k = name_end(c, j + 1);
                proof { lemma_name_end(c, j + 1); }
                if k >= c.len() {
                    Some(Err("Unclosed state name"@))
                } else if !(is_char_boundary(b, j + 1) && is_char_boundary(b, k)) {
                    None
                } else {
                    let name = decode_utf8(b.subrange(j + 1, k));
                    let init2 = if init == "default"@ { name } else { init };
                    let m = skip_ws_from(c, k + 1);
                    proof { lemma_skip_ws(c, k + 1); }
                    if m < c.len() && c[m] == '{' {
                        let (e, d) = block_close(c, m + 1, 1);
                        proof { lemma_block_close(c, m + 1, 1); }
                        if d > 0 {
                            Some(Err("Unclosed state block"@))
                        } else if !(is_char_boundary(b, m + 1) && is_char_boundary(b, e)) {
                            None
                        } else {
                            match spec_block(trim(decode_utf8(b.subrange(m + 1, e))), Some(name)) {
                                None => None,
                                Some(Err(x)) => Some(Err(x)),
                                Some(Ok(rs)) => {
                                    proof { lemma_past_semicolon(c, e + 1); }
                                    script_from(c, b, past_semicolon(c, e + 1), rules + rs, init2)
                                },
                            }
                        }
                    } else {
                        proof { lemma_past_semicolon(c, m); }
                        script_from(c, b, past_semicolon(c, m), rules, init2)
                    }
                }
            }
        } else {
            let pe = match index_of(c, i0, ';') { Some(p) => p, None => c.len() as int };
            proof { lemma_index_of_bound(c, i0, ';'); }
            let next = if pe < c.len() { pe + 1 } else { pe };
            if !is_char_boundary(b, pe) {
                None
            } else {
                let part = trim(decode_utf8(b.subrange(i0, pe)));
                if part.len() == 0 {
                    script_from(c, b, next, rules, init)
                } else {
                    match spec_parse_rule(part) {
                        None => None,
                        Some(Err(x)) => Some(Err(x)),
                        Some(Ok(r)) => script_from(c, b, next, rules.push(r), init),
                    }
                }
            }
        }
    }
}

/// A script read from its text: its initial state (the first declared
/// state, else `default`) and its rules in order, or the first error
/// (`None`: a piece would be cut inside a character).
pub open spec fn spec_parse_script(s: Seq<char>) -> Option<Result<ScriptView, Seq<char>>> {
    script_from(s, encode_utf8(s), 0, seq![], "default"@)
}

fn skip_ws_exec(c: &[char], i: usize) -> (r: usize)
    requires i <= c@.len(),
    ensures r as int == skip_ws_from(c@, i as int), i <= r <= c@.len(),
{
    let mut k = i;
    while k < c.len() && is_whitespace(c[k])
        invariant
            i <= k <= c@.len(),
            skip_ws_from(c@, k as int) == skip_ws_from(c@, i as int),
        decreases c.len() - k,
    {
        k = k + 1;
    }
    k
}

fn name_end_exec(c: &[char], i: usize) -> (r: usize)
    requires i <= c@.len(),
    ensures r as int == name_end(c@, i as int), i <= r <= c@.len(),
{
    let mut k = i;
    let n = c.len();
    while k < n && c[k] != '"'
        invariant
            i <= k <= c@.len(),
            n == c@.len(),
            name_end(c@, k as int) == name_end(c@, i as int),
        decreases n - k,
    {
        if c[k] == '\\' && k + 1 < n {
            k = k + 2;
        } else {
            k = k + 1;
        }
    }
    k
}

fn block_close_exec(c: &[char], i: usize) -> (r: (usize, bool))
    requires i <= c@.len(),
    ensures
        r.0 as int == block_close(c@, i as int, 1).0,
        r.1 == (block_close(c@, i as int, 1).1 > 0),
        i <= r.0 <= c@.len(),
{
    let mut k = i;
    let mut depth: u128 = 1;
    let n = c.len();
    while k < n && depth > 0
        invariant
            i <= k <= c@.len(),
            n == c@.len(),
            depth <= k - i + 1,
            block_close(c@, k as int, depth as int) == block_close(c@, i as int, 1),
        decreases n - k, depth,
    {
        let d2: u128 = if c[k] == '{' { depth + 1 } else if c[k] == '}' { depth - 1 } else { depth };
        depth = d2;
        if depth > 0 {
            k = k + 1;
        }
    }
    (k, depth > 0)
}

fn past_semicolon_exec(c: &[char], i: usize) -> (r: usize)
    requires i <= c@.len(),
    ensures r as int == past_semicolon(c@, i as int), i <= r <= c@.len(),
{
    let j = skip_ws_exec(c, i);
    if j < c.len() && c[j] == ';' { j + 1 } else { j }
}

/// The text of `bs[x..y]`, both offsets on character boundaries.
fn text_range(bs: &[u8], x: usize, y: usize) -> (r: Vec<char>)
    requires
        valid_utf8(bs@),
        x <= y,
        is_char_boundary(bs@, x as int),
        is_char_boundary(bs@, y as int),
    ensures
        r@ == decode_utf8(bs@.subrange(x as int, y as int)),
        y <= bs@.len(),
{
    proof { lemma_valid_range(bs@, x as int, y as int); }
    let piece = slice_to_vec(bs, x, y);
    match utf8_text(piece.as_slice()) {
        Some(t) => chars_of(t.as_str()),
        None => Vec::new(),
    }
}

pub proof fn lemma_valid_range(bs: Seq<u8>, x: int, y: int)
    requires
        valid_utf8(bs),
        0 <= x <= y,
        is_char_boundary(bs, x),
        is_char_boundary(bs, y),
    ensures
        y <= bs.len(),
        valid_utf8(bs.subrange(x, y)),
{
    vstd::utf8::valid_utf8_split(bs, y);
    let p = bs.subrange(0, y);
    if x < y {
        vstd::utf8::is_char_boundary_iff_not_is_continuation_byte(bs, x);
        vstd::utf8::is_char_boundary_iff_not_is_continuation_byte(p, x);
    } else {
        vstd::utf8::is_char_boundary_start_end_of_seq(p);
    }
    vstd::utf8::valid_utf8_split(p, x);
    assert(p.subrange(x, p.len() as int) =~= bs.subrange(x, y));
}

pub open spec fn result_view(r: Option<Result<Vec<Rule>, String>>) -> Option<Result<Seq<RuleView>, Seq<char>>> {
    match r {
        None => None,
        Some(Ok(x)) => Some(Ok(rules_view(x@))),
        Some(Err(e)) => Some(Err(e@)),
    }
}

/// Reads a script, or tells why it is refused; `None` where the reading
/// would cut a character in two (see `spec_parse_script`).
pub fn try_parse_script(script: &str) -> (r: Option<Result<Script, String>>)
    ensures
        match spec_parse_script(script@) {
            None => r is None,
            Some(Ok(v)) => r matches Some(Ok(x)) && x@ == v,
            Some(Err(m)) => r matches Some(Err(e)) && e@ == m,
        },
{
    let c = chars_of(script);
    let bs = script.as_bytes();
    let ghost b = encode_utf8(script@);
    let kw: [u8; 6] = [0x73u8, 0x74u8, 0x61u8, 0x74u8, 0x65u8, 0x20u8];
    assert(kw@ =~= state_kw());
    let mut rules: Vec<Rule> = Vec::new();
    let mut init = chars_of("default");
    let mut i: usize = 0;
    assert(rules_view(rules@) =~= Seq::<RuleView>::empty());
    loop
        invariant
            i <= c@.len(),
            c@ == script@,
            bs@ == b,
            b == encode_utf8(script@),
            valid_utf8(b),
            kw@ == state_kw(),
            script_from(c@, b, i as int, rules_view(rules@), init@) == spec_parse_script(script@),
        decreases c@.len() - i,
    {
        let i0 = skip_ws_exec(c.as_slice(), i);
        if i0 >= c.len() {
            return Some(Ok(Script { initial_state: string_from_chars(init.as_slice()), rules }));
        }
        if !script.is_char_boundary(i0) {
            return None;
        }
        if crate::text::has_at_bytes(bs, i0, kw.as_slice()) {
            if c.len() - i0 < 6 {
                return Some(Err(String::from_str("State name must be quoted")));
            }
            let j = skip_ws_exec(c.as_slice(), i0 + 6);
            if j >= c.len() || c[j] != '"' {
                return Some(Err(String::from_str("State name must be quoted")));
            }
            let k = name_end_exec(c.as_slice(), j + 1);
            if k >= c.len() {
                return Some(Err(String::from_str("Unclosed state name")));
            }
            if !(script.is_char_boundary(j + 1) && script.is_char_boundary(k)) {
                return None;
            }
            let name = text_range(bs, j + 1, k);
            let default_name = chars_of("default");
            let init2 = if init.as_slice().len() == default_name.len() && starts_with(init.as_slice(), default_name.as_slice()) {
                assert(init@ =~= "default"@);
                slice_to_vec(name.as_slice(), 0, name.len())
            } else {
                proof {
                    if init@ == "default"@ {
                        assert(init@.take(default_name@.len() as int) =~= default_name@);
                    }
                }
                init
            };
            assert(name@.subrange(0, name@.len() as int) =~= name@);
            let m = skip_ws_exec(c.as_slice(), k + 1);
            if m < c.len() && c[m] == '{' {
                let (e, open) = block_close_exec(c.as_slice(), m + 1);
                if open {
                    return Some(Err(String::from_str("Unclosed state block")));
                }
                proof { lemma_block_close(c@, m + 1, 1); }
                if !(script.is_char_boundary(m + 1) && script.is_char_boundary(e)) {
                    return None;
                }
                let block = trim_chars(text_range(bs, m + 1, e).as_slice());
                let block_text = string_from_chars(block.as_slice());
                let state_name = Some(string_from_chars(name.as_slice()));
                let found = try_parse_rules_in_block(block_text.as_str(), state_name);
                let ghost fv = result_view(found);
                match found {
                    None => return None,
                    Some(Err(x)) => return Some(Err(x)),
                    Some(Ok(rs)) => {
                        let ghost before = rules_view(rules@);
                        let mut rs = rs;
                        rules.append(&mut rs);
                        proof {
                            assert(rules_view(rules@) =~= before + fv->Some_0->Ok_0);
                        }
                        init = init2;
                        i = past_semicolon_exec(c.as_slice(), e + 1);
                    },
                }
            } else {
                init = init2;
                i = past_semicolon_exec(c.as_slice(), m);
            }
        } else {
            let pe = match index_of_exec(c.as_slice(), i0, ';') {
                Some(p) => p,
                None => c.len(),
            };
            let next = if pe < c.len() { pe + 1 } else { pe };
            if !script.is_char_boundary(pe) {
                return None;
            }
            let part = trim_chars(text_range(bs, i0, pe).as_slice());
            if part.len() > 0 {
                let part_text = string_from_chars(part.as_slice());
                match try_parse_rule(part_text.as_str()) {
                    None => return None,
                    Some(Err(x)) => return Some(Err(x)),
                    Some(Ok(rule)) => {
                        let ghost before = rules_view(rules@);
                        rules.push(rule);
                        assert(rules_view(rules@) =~= before.push(rule@));
                    },
                }
            }
            i = next;
        }
    }
}

/// Reads a script (see `try_parse_script`) that is known to be read without
/// cutting a character.
pub fn parse_script(script: &str) -> (r: Result<Script, String>)
    requires
        spec_parse_script(script@) is Some,
    ensures
        match spec_parse_script(script@) {
            Some(Ok(v)) => r matches Ok(x) && x@ == v,
            Some(Err(m)) => r matches Err(e) && e@ == m,
            None => false,
        },
{
    match try_parse_script(script) {
        Some(r) => r,
        None => Err(String::new()),
    }
}

// ---------------------------------------------------------------------
// Running a script against the lines a program prints.

/// First index at or after `k` where `p` occurs in `t`.
pub open spec fn first_occurrence(t: Seq<char>, p: Seq<char>, k: int) -> Option<int>
    decreases t.len() + 1 - k,
{
    if k < 0 || k > t.len() {
        None
    } else if crate::text::occurs_at(t, p, k) {
        Some(k)
    } else {
        first_occurrence(t, p, k + 1)
    }
}

/// What is left of the output after a rule's pattern matched: everything
/// after the first match (the output unchanged when none is found).
pub open spec fn after_match(p: PatternView, t: Seq<char>) -> Seq<char> {
    match p {
        PatternView::String(s) => match first_occurrence(t, s, 0) {
            Some(k) => t.skip(k + s.len()),
            None => t,
        },
        PatternView::Regex(src) => match regex_first_match_end(src, t) {
            Some(e) => decode_utf8(encode_utf8(t).skip(e as int)),
            None => t,
        },
    }
}

/// Whether a rule holds in a state.
pub open spec fn applies_in(r: RuleView, state: Seq<char>) -> bool {
    match r.state {
        Some(s) => s == state,
        None => true,
    }
}

/// The first rule, from index `i`, that holds in `state` and whose pattern
/// is found in `t`.
pub open spec fn first_firing(rules: Seq<RuleView>, state: Seq<char>, t: Seq<char>, i: int) -> Option<int>
    decreases rules.len() - i,
{
    if i < 0 || i >= rules.len() {
        None
    } else if applies_in(rules[i], state) && pattern_matches(rules[i].pattern, t) {
        Some(i)
    } else {
        first_firing(rules, state, t, i + 1)
    }
}

/// How a pattern is shown in messages: a literal in quotes, or `regex`.
pub open spec fn pattern_display(p: PatternView) -> Seq<char> {
    match p {
        PatternView::String(s) => "\""@ + s + "\""@,
        PatternView::Regex(_) => "regex"@,
    }
}

/// The message of a rule whose pattern was not seen in time.
pub open spec fn timeout_message(r: RuleView) -> Seq<char> {
    "Timeout: Pattern "@ + pattern_display(r.pattern) + " not found within "@
        + crate::text::decimal(r.timeout.unwrap() as nat) + " seconds"@
}

/// The indices of the rules that have a timeout, in order.
pub open spec fn timed_rules(rules: Seq<RuleView>, n: int) -> Seq<usize>
    decreases n,
{
    if n <= 0 {
        seq![]
    } else if rules[n - 1].timeout is Some {
        timed_rules(rules, n - 1).push((n - 1) as usize)
    } else {
        timed_rules(rules, n - 1)
    }
}

/// Whether a rule's timeout has run out after `elapsed_ms` milliseconds.
pub open spec fn expired(r: RuleView, elapsed_ms: u64) -> bool {
    match r.timeout {
        Some(t) => elapsed_ms >= t * 1000,
        None => false,
    }
}

/// The first position, from `k`, of a waiting rule whose timeout ran out.
pub open spec fn first_expired(rules: Seq<RuleView>, pending: Seq<usize>, elapsed_ms: u64, k: int) -> Option<int>
    decreases pending.len() - k,
{
    if k < 0 || k >= pending.len() {
        None
    } else if expired(rules[pending[k] as int], elapsed_ms) {
        Some(k)
    } else {
        first_expired(rules, pending, elapsed_ms, k + 1)
    }
}

/// Keeps every index but `i`.
pub open spec fn other_than(i: usize) -> spec_fn(usize) -> bool {
    |x: usize| x != i
}

/// A script being run: its rules, the current state, the output collected
/// since the last match, and the rules whose timeout still runs.
pub struct ScriptRunner {
    pub script: Script,
    pub current_state: String,
    pub accumulated: String,
    pub pending: Vec<usize>,
}

/// What happened when a rule fired.
pub struct Fired {
    pub rule_index: usize,
    /// The text to send.
    pub response: String,
    /// The pattern as shown in messages.
    pub pattern_display: String,
    /// The state before, and the state entered (if the rule names one).
    pub from_state: String,
    pub next_state: Option<String>,
}

impl ScriptRunner {
    pub open spec fn wf(&self) -> bool {
        forall|k: int| 0 <= k < self.pending@.len() ==> {
            let i = #[trigger] self.pending@[k];
            &&& i < self.script.rules@.len()
            &&& self.script.rules@[i as int]@.timeout is Some
        }
    }

    pub open spec fn rules(&self) -> Seq<RuleView> {
        rules_view(self.script.rules@)
    }

    /// Starts a script: in its initial state, with nothing collected, and
    /// every rule that has a timeout waiting.
    pub fn new(script: Script) -> (r: ScriptRunner)
        ensures
            r.wf(),
            r.rules() == rules_view(script.rules@),
            r.current_state@ == script.initial_state@,
            r.accumulated@ == Seq::<char>::empty(),
            r.pending@ == timed_rules(rules_view(script.rules@), script.rules@.len() as int),
    {
        let mut pending: Vec<usize> = Vec::new();
        let mut i: usize = 0;
        let ghost rv = rules_view(script.rules@);
        while i < script.rules.len()
            invariant
                i <= script.rules@.len(),
                rv == rules_view(script.rules@),
                pending@ == timed_rules(rv, i as int),
                forall|k: int| 0 <= k < pending@.len() ==> {
                    let j = #[trigger] pending@[k];
                    &&& j < script.rules@.len()
                    &&& script.rules@[j as int]@.timeout is Some
                },
            decreases script.rules.len() - i,
        {
            assert(rv[i as int] == script.rules@[i as int]@);
            if script.rules[i].timeout.is_some() {
                pending.push(i);
            }
            i = i + 1;
        }
        let current_state = script.initial_state.clone();
        ScriptRunner { script, current_state, accumulated: String::new(), pending }
    }

    /// The first rule whose timeout ran out after `elapsed_ms` milliseconds:
    /// its message and exit code 1.
    pub fn check_timeouts(&self, elapsed_ms: u64) -> (r: Option<(String, i32)>)
        requires self.wf(),
        ensures
            match first_expired(self.rules(), self.pending@, elapsed_ms, 0) {
                Some(k) => r matches Some((m, code)) && code == 1
                    && m@ == timeout_message(self.rules()[self.pending@[k] as int]),
                None => r is None,
            },
    {
        let mut k: usize = 0;
        while k < self.pending.len()
            invariant
                self.wf(),
                k <= self.pending@.len(),
                first_expired(self.rules(), self.pending@, elapsed_ms, k as int)
                    == first_expired(self.rules(), self.pending@, elapsed_ms, 0),
            decreases self.pending.len() - k,
        {
            let i = self.pending[k];
            assert(self.rules()[i as int] == self.script.rules@[i as int]@);
            let t = match self.script.rules[i].timeout {
                Some(t) => t,
                None => 0,
            };
            if elapsed_ms as u128 >= t as u128 * 1000 {
                let m = self.timeout_message_of(i);
                return Some((m, 1));
            }
            k = k + 1;
        }
        None
    }

    /// At the end of input: a rule whose timeout still runs was never
    /// matched, so the first such rule's message and exit code 1.
    pub fn on_eof(&self) -> (r: Option<(String, i32)>)
        requires self.wf(),
        ensures
            self.pending@.len() == 0 <==> r is None,
            r matches Some((m, code)) ==> code == 1 && m@ == timeout_message(self.rules()[self.pending@[0] as int]),
    {
        if self.pending.len() == 0 {
            None
        } else {
            let i = self.pending[0];
            Some((self.timeout_message_of(i), 1))
        }
    }

    fn timeout_message_of(&self, i: usize) -> (m: String)
        requires
            i < self.script.rules@.len(),
            self.script.rules@[i as int]@.timeout is Some,
        ensures m@ == timeout_message(self.rules()[i as int]),
    {
        let rule = &self.script.rules[i];
        assert(self.rules()[i as int] == rule@);
        let mut v = chars_of("Timeout: Pattern ");
        let d = display_of(&rule.pattern);
        extend_all(&mut v, d.as_slice());
        push_str(&mut v, " not found within ");
        let t = match rule.timeout {
            Some(t) => t,
            None => 0,
        };
        let digits = crate::text::decimal_chars(t);
        extend_all(&mut v, digits.as_slice());
        push_str(&mut v, " seconds");
        string_from_chars(v.as_slice())
    }

    /// A line of output comes in: it is added to what was collected; the
    /// first rule that holds in the current state and whose pattern is
    /// found fires. Its response is to be sent, the collected output keeps
    /// only what follows the match, the state moves on when the rule names
    /// a next state, and the rule's timeout stops.
    pub fn on_line(&mut self, line: &str) -> (r: Option<Fired>)
        requires old(self).wf(),
        ensures
            final(self).wf(),
            final(self).rules() == old(self).rules(),
            ({
                let text = old(self).accumulated@ + line@;
                match first_firing(old(self).rules(), old(self).current_state@, text, 0) {
                    None => r is None
                        && final(self).accumulated@ == text
                        && final(self).current_state@ == old(self).current_state@
                        && final(self).pending@ == old(self).pending@,
                    Some(i) => {
                        let rule = old(self).rules()[i];
                        &&& r matches Some(f) && f.rule_index == i && f.response@ == rule.response
                            && f.pattern_display@ == pattern_display(rule.pattern)
                            && f.from_state@ == old(self).current_state@
                            && opt_chars(f.next_state) == rule.next_state
                        &&& final(self).accumulated@ == after_match(rule.pattern, text)
                        &&& final(self).current_state@ == match rule.next_state {
                            Some(n) => n,
                            None => old(self).current_state@,
                        }
                        &&& final(self).pending@ == old(self).pending@.filter(other_than(i as usize))
                    },
                }
            }),
    {
        let ghost text = self.accumulated@ + line@;
        let mut acc = chars_of(self.accumulated.as_str());
        push_str(&mut acc, line);
        let text_s = string_from_chars(acc.as_slice());
        assert(text_s@ == text);
        let ghost rv = self.rules();
        let ghost state = self.current_state@;
        let mut i: usize = 0;
        while i < self.script.rules.len()
            invariant
                i <= self.script.rules@.len(),
                rv == rules_view(self.script.rules@),
                state == self.current_state@,
                text_s@ == text,
                text == old(self).accumulated@ + line@,
                first_firing(rv, state, text, i as int) == first_firing(rv, state, text, 0),
                self.wf(),
                rv == old(self).rules(),
                self.script.rules@ == old(self).script.rules@,
                self.pending@ == old(self).pending@,
                self.current_state@ == old(self).current_state@,
                self.accumulated@ == old(self).accumulated@,
            decreases self.script.rules.len() - i,
        {
            let rule = &self.script.rules[i];
            assert(rv[i as int] == rule@);
            let holds = match &rule.state {
                Some(s) => *s == self.current_state,
                None => true,
            };
            if holds && rule.matches(text_s.as_str()) {
                let fired = Fired {
                    rule_index: i,
                    response: rule.response.clone(),
                    pattern_display: string_from_chars(display_of(&rule.pattern).as_slice()),
                    from_state: self.current_state.clone(),
                    next_state: match &rule.next_state { Some(n) => Some(n.clone()), None => None },
                };
                let rest = remaining_after(&rule.pattern, text_s.as_str());
                let next = match &rule.next_state { Some(n) => Some(n.clone()), None => None };
                self.accumulated = rest;
                match next {
                    Some(n) => { self.current_state = n; },
                    None => {},
                }
                let ghost before = self.pending@;
                let mut kept: Vec<usize> = Vec::new();
                let mut k: usize = 0;
                while k < self.pending.len()
                    invariant
                        k <= self.pending@.len(),
                        self.pending@ == before,
                        kept@ == before.take(k as int).filter(other_than(i)),
                        forall|q: int| 0 <= q < before.len() ==> {
                            let j = #[trigger] before[q];
                            &&& j < self.script.rules@.len()
                            &&& self.script.rules@[j as int]@.timeout is Some
                        },
                        forall|q: int| 0 <= q < kept@.len() ==> {
                            let j = #[trigger] kept@[q];
                            &&& j < self.script.rules@.len()
                            &&& self.script.rules@[j as int]@.timeout is Some
                        },
                    decreases self.pending.len() - k,
                {
                    let x = self.pending[k];
                    proof {
                        assert(before.take(k + 1).drop_last() =~= before.take(k as int));
                        reveal(Seq::filter);
                        assert(before.take(k + 1).last() == x);
                    }
                    if x != i {
                        kept.push(x);
                    }
                    k = k + 1;
                }
                assert(before.take(before.len() as int) =~= before);
                self.pending = kept;
                return Some(fired);
            }
            i = i + 1;
        }
        self.accumulated = text_s;
        None
    }
}

fn display_of(p: &Pattern) -> (r: Vec<char>)
    ensures r@ == pattern_display(p@),
{
    match p {
        Pattern::String(s) => {
            let mut v = chars_of("\"");
            push_str(&mut v, s.as_str());
            push_str(&mut v, "\"");
            v
        },
        Pattern::Regex(_) => chars_of("regex"),
    }
}

/// The output after the first match of a pattern.
fn remaining_after(p: &Pattern, text: &str) -> (r: String)
    ensures r@ == after_match(p@, text@),
{
    match p {
        Pattern::String(s) => {
            let t = chars_of(text);
            let pc = chars_of(s.as_str());
            match crate::text::find_seq(t.as_slice(), 0, pc.as_slice()) {
                Some(k) => {
                    proof { lemma_first_occurrence(t@, pc@, 0, k as int); }
                    let n = t.len();
                    let pl = pc.len();
                    let rest = slice_to_vec(t.as_slice(), k + pl, n);
                    assert(rest@ =~= t@.skip(k + pc@.len()));
                    string_from_chars(rest.as_slice())
                },
                None => {
                    proof { lemma_no_occurrence(t@, pc@, 0); }
                    String::from_str(text)
                },
            }
        },
        Pattern::Regex(re) => match re.first_match_end(text) {
            Some(e) => {
                let bs = text.as_bytes();
                let rest = text_from(bs, e);
                string_from_chars(rest.as_slice())
            },
            None => String::from_str(text),
        },
    }
}

pub proof fn lemma_first_occurrence(t: Seq<char>, p: Seq<char>, from: int, k: int)
    requires
        0 <= from <= k,
        crate::text::occurs_at(t, p, k),
        forall|j: int| from <= j < k ==> !crate::text::occurs_at(t, p, j),
    ensures
        first_occurrence(t, p, from) == Some(k),
    decreases k - from,
{
    if from < k {
        lemma_first_occurrence(t, p, from + 1, k);
    }
}

pub proof fn lemma_no_occurrence(t: Seq<char>, p: Seq<char>, from: int)
    requires
        0 <= from,
        forall|j: int| from <= j ==> !crate::text::occurs_at(t, p, j),
    ensures
        first_occurrence(t, p, from) is None,
    decreases t.len() + 1 - from,
{
    if from <= t.len() {
        lemma_no_occurrence(t, p, from + 1);
    }
}

// ---------------------------------------------------------------------
// The command line of the script runner.

/// Options of the script runner.
pub struct ScriptConfig {
    /// A script given on the command line (`-e`).
    pub execute_script: Option<String>,
    /// A file to read the script from (`-s`).
    pub script_file: Option<String>,
    pub debug: bool,
    pub verbose: bool,
}

pub struct ScriptConfigView {
    pub execute_script: Option<Seq<char>>,
    pub script_file: Option<Seq<char>>,
    pub debug: bool,
    pub verbose: bool,
}

pub open spec fn script_config_view(c: ScriptConfig) -> ScriptConfigView {
    ScriptConfigView {
        execute_script: opt_chars(c.execute_script),
        script_file: opt_chars(c.script_file),
        debug: c.debug,
        verbose: c.verbose,
    }
}

/// The options read from argument `i` on, with `c` read so far; a usage
/// error is its message and exit code.
pub open spec fn script_args_from(args: Seq<Seq<char>>, i: int, c: ScriptConfigView) -> Result<ScriptConfigView, (Seq<char>, int)>
    decreases args.len() - i,
{
    if i < 0 || i >= args.len() {
        Ok(c)
    } else {
        let a = args[i];
        if a == "-e"@ || a == "--execute"@ {
            if i + 1 >= args.len() {
                Err(("Option requires an argument"@, 64))
            } else {
                script_args_from(args, i + 2, ScriptConfigView { execute_script: Some(args[i + 1]), ..c })
            }
        } else if a == "-s"@ || a == "--script"@ {
            if i + 1 >= args.len() {
                Err(("Option requires an argument"@, 64))
            } else {
                script_args_from(args, i + 2, ScriptConfigView { script_file: Some(args[i + 1]), ..c })
            }
        } else if a == "--debug"@ {
            script_args_from(args, i + 1, ScriptConfigView { debug: true, ..c })
        } else if a == "--verbose"@ {
            script_args_from(args, i + 1, ScriptConfigView { verbose: true, ..c })
        } else if a.len() > 0 && a[0] == '-' {
            Err(("Unknown option: "@ + a, 64))
        } else {
            Err(("Unexpected argument: "@ + a, 64))
        }
    }
}

pub open spec fn no_script_options() -> ScriptConfigView {
    ScriptConfigView { execute_script: None, script_file: None, debug: false, verbose: false }
}

fn is_lit(s: &String, lit: &str) -> (r: bool)
    ensures r == (s@ == lit@),
{
    *s == String::from_str(lit)
}

fn usage_error(prefix: &str, s: &String) -> (r: (String, i32))
    ensures r.0@ == prefix@ + s@, r.1 == 64,
{
    let mut v = chars_of(prefix);
    push_str(&mut v, s.as_str());
    (string_from_chars(v.as_slice()), 64)
}

impl ScriptConfig {
    /// No script yet, quiet.
    pub fn default_config() -> (r: ScriptConfig)
        ensures script_config_view(r) == no_script_options(),
    {
        ScriptConfig { execute_script: None, script_file: None, debug: false, verbose: false }
    }
}

/// Reads the runner's command line (`args[0]` is the program).
pub fn parse_script_args(args: &Vec<String>) -> (r: Result<ScriptConfig, (String, i32)>)
    ensures
        match script_args_from(crate::capture::strs(args@), 1, no_script_options()) {
            Ok(c) => r matches Ok(x) && script_config_view(x) == c,
            Err((m, code)) => r matches Err((msg, k)) && msg@ == m && k == code,
        },
{
    let ghost av = crate::capture::strs(args@);
    let mut cfg = ScriptConfig::default_config();
    let mut i: usize = 1;
    while i < args.len()
        invariant
            1 <= i,
            av == crate::capture::strs(args@),
            script_args_from(av, i as int, script_config_view(cfg)) == script_args_from(av, 1, no_script_options()),
        decreases args.len() - i,
    {
        let a = &args[i];
        assert(av[i as int] == a@);
        if is_lit(a, "-e") || is_lit(a, "--execute") {
            if i + 1 >= args.len() {
                return Err((String::from_str("Option requires an argument"), 64));
            }
            assert(av[i + 1] == args@[i + 1]@);
            cfg.execute_script = Some(args[i + 1].clone());
            i = i + 2;
        } else if is_lit(a, "-s") || is_lit(a, "--script") {
            if i + 1 >= args.len() {
                return Err((String::from_str("Option requires an argument"), 64));
            }
            assert(av[i + 1] == args@[i + 1]@);
            cfg.script_file = Some(args[i + 1].clone());
            i = i + 2;
        } else if is_lit(a, "--debug") {
            cfg.debug = true;
            i = i + 1;
        } else if is_lit(a, "--verbose") {
            cfg.verbose = true;
            i = i + 1;
        } else {
            let ac = chars_of(a.as_str());
            if ac.len() > 0 && ac[0] == '-' {
                return Err(usage_error("Unknown option: ", a));
            }
            return Err(usage_error("Unexpected argument: ", a));
        }
    }
    Ok(cfg)
}

/// Where the script comes from.
pub enum ScriptSource {
    /// A file to read.
    File(String),
    /// The text given on the command line.
    Text(String),
}

/// The script file when one is given, else the script text; without either
/// a usage error.
pub fn script_source(cfg: &ScriptConfig) -> (r: Result<ScriptSource, (String, i32)>)
    ensures
        match cfg.script_file {
            Some(f) => r matches Ok(ScriptSource::File(x)) && x@ == f@,
            None => match cfg.execute_script {
                Some(t) => r matches Ok(ScriptSource::Text(x)) && x@ == t@,
                None => r matches Err((m, code)) && m@ == "Either --execute or --script option is required"@ && code == 64,
            },
        },
{
    match &cfg.script_file {
        Some(f) => Ok(ScriptSource::File(f.clone())),
        None => match &cfg.execute_script {
            Some(t) => Ok(ScriptSource::Text(t.clone())),
            None => Err((String::from_str("Either --execute or --script option is required"), 64)),
        },
    }
}

/// Reads the script text and starts running it: a refused script is a usage
/// error `Failed to parse DSL: ...`. `None` where reading the script would
/// cut a character in two (see `spec_parse_script`).
pub fn start_script(text: &str) -> (r: Option<Result<ScriptRunner, (String, i32)>>)
    ensures
        match spec_parse_script(text@) {
            None => r is None,
            Some(Ok(v)) => r matches Some(Ok(run)) && run.wf() && run.rules() == v.rules
                && run.current_state@ == v.initial_state && run.accumulated@ == Seq::<char>::empty()
                && run.pending@ == timed_rules(v.rules, v.rules.len() as int),
            Some(Err(m)) => r matches Some(Err((msg, code))) && msg@ == "Failed to parse DSL: "@ + m && code == 64,
        },
{
    match try_parse_script(text) {
        None => None,
        Some(Ok(script)) => Some(Ok(ScriptRunner::new(script))),
        Some(Err(e)) => Some(Err(({
            let mut v = chars_of("Failed to parse DSL: ");
            push_str(&mut v, e.as_str());
            string_from_chars(v.as_slice())
        }, 64))),
    }
}

/// In a quoted response, the escapes `\n`, `\r` and `\t` are read as the
/// single characters U+000A, U+000D and U+0009: the scan goes on two bytes
/// later with that one character added.
pub proof fn lemma_quoted_control_escapes(bs: Seq<u8>, i: int, acc: Seq<char>)
    requires
        0 <= i,
        i + 1 < bs.len(),
        bs[i] == 0x5c,
        bs[i + 1] == 0x6e || bs[i + 1] == 0x72 || bs[i + 1] == 0x74,
    ensures
        ({
            let c = if bs[i + 1] == 0x6e { '\n' } else if bs[i + 1] == 0x72 { '\r' } else { '\t' };
            quoted_scan(bs, i, acc) == quoted_scan(bs, i + 2, acc.push(c))
        }),
{
    let c = if bs[i + 1] == 0x6e { '\n' } else if bs[i + 1] == 0x72 { '\r' } else { '\t' };
    assert(acc + escaped(bs[i + 1], true) =~= acc.push(c));
}

/// Where no ` goto` starts and no character is cut, an unquoted response
/// reads `\n`, `\r` and `\t` as the single characters U+000A, U+000D and
/// U+0009.
pub proof fn lemma_unquoted_control_escapes(bs: Seq<u8>, i: int, acc: Seq<char>)
    requires
        0 <= i,
        i + 1 < bs.len(),
        bs[i] == 0x5c,
        bs[i + 1] == 0x6e || bs[i + 1] == 0x72 || bs[i + 1] == 0x74,
        i + 4 < bs.len() ==> is_char_boundary(bs, i) && is_char_boundary(bs, i + 5),
    ensures
        ({
            let c = if bs[i + 1] == 0x6e { '\n' } else if bs[i + 1] == 0x72 { '\r' } else { '\t' };
            unquoted_scan(bs, i, acc) == unquoted_scan(bs, i + 2, acc.push(c))
        }),
{
    let c = if bs[i + 1] == 0x6e { '\n' } else if bs[i + 1] == 0x72 { '\r' } else { '\t' };
    if i + 4 < bs.len() {
        assert(bs.subrange(i, i + 5)[0] == bs[i]);
        assert(bs.subrange(i, i + 5) != goto_bytes());
    }
    assert(acc + escaped(bs[i + 1], false) =~= acc.push(c));
}

} // verus!
