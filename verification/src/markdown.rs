//! Markdown for the terminal: headings, emphasis, inline code and list
//! markers styled with ANSI escapes, tables aligned in columns with row
//! numbers, and fenced code blocks dimmed or highlighted.

use vstd::prelude::*;
use crate::text::leading_ws;
use vstd::string::*;
use vstd::utf8::*;
use crate::logfmt::{push_str, utf8_text};
use syntect::easy::HighlightLines;
use syntect::highlighting::ThemeSet;
use syntect::parsing::SyntaxSet;
use syntect::util::as_24_bit_terminal_escaped;
use crate::text::{
    char_len, char_utf8_len, chars_of, decimal, decimal_chars, extend_all, is_whitespace, is_ws,
    lemma_utf8_len_split, lemma_utf8_len_take, slice_to_vec, split_whitespace, split_ws, starts_with, seq_starts_with,
    string_from_chars, trim, trim_chars, trim_start, trim_start_chars, utf8_len, words_view,
    split_char, split_on, vstrs,
};

verus! {

pub const RESET: &'static str = "\x1b[0m";
pub const BOLD: &'static str = "\x1b[1m";
pub const DIM: &'static str = "\x1b[2m";
pub const CYAN: &'static str = "\x1b[36m";
pub const YELLOW: &'static str = "\x1b[33m";
pub const GREEN: &'static str = "\x1b[32m";
/// Table frame: bold cyan.
pub const TABLE_FRAME: &'static str = "\x1b[1;36m";

/// Number of backticks that open the line (after leading whitespace).
pub open spec fn backtick_run(s: Seq<char>) -> nat
    decreases s.len(),
{
    if s.len() > 0 && s[0] == '`' { 1 + backtick_run(s.drop_first()) } else { 0 }
}

/// The length of the backtick run that opens the line.
pub fn fence_len(line: &str) -> (r: usize)
    ensures r as nat == backtick_run(trim_start(line@)),
{
    let c = chars_of(line);
    let s = trim_start_chars(c.as_slice());
    let mut k: usize = 0;
    assert(s@.skip(0) =~= s@);
    while k < s.len() && s[k] == '`'
        invariant
            k <= s@.len(),
            backtick_run(s@.skip(k as int)) + k == backtick_run(s@),
        decreases s.len() - k,
    {
        assert(s@.skip(k as int).drop_first() =~= s@.skip(k + 1));
        k = k + 1;
    }
    assert(s@.skip(0) =~= s@);
    k
}

pub open spec fn spec_is_fence(line: Seq<char>) -> bool {
    let s = trim_start(line);
    s.len() > 0 && s[0] == '`' && backtick_run(s) >= 3
}

/// The line closes a code block: it opens with three or more backticks.
pub fn is_fence(line: &str, fence: &str) -> (r: bool)
    ensures r == spec_is_fence(line@),
{
    let c = chars_of(line);
    let s = trim_start_chars(c.as_slice());
    let n = fence_len(line);
    s.len() > 0 && s[0] == '`' && n >= 3
}

pub open spec fn ticks3() -> Seq<char> {
    seq!['`', '`', '`']
}

/// Index of the first whitespace character of `s` (or its length).
pub open spec fn first_ws(s: Seq<char>) -> nat
    decreases s.len(),
{
    if s.len() == 0 || is_ws(s[0]) { 0 } else { 1 + first_ws(s.drop_first()) }
}

/// The opening fence of a line that opens a code block: the backticks with
/// the language word that follows them (and the whitespace between), or
/// the three backticks alone when no word follows.
pub open spec fn spec_fence_start(line: Seq<char>) -> Option<Seq<char>> {
    let s = trim_start(line);
    if seq_starts_with(s, ticks3()) {
        let rest = s.skip(3);
        let w = leading_ws(rest);
        let word = first_ws(rest.skip(w as int));
        if word == 0 { Some(ticks3()) } else { Some(s.take((3 + w + word) as int)) }
    } else {
        None
    }
}

/// The opening fence of a line that opens a code block (`None` when the
/// line does not start, after whitespace, with three backticks).
pub fn fence_start(line: &str) -> (r: Option<String>)
    ensures
        match spec_fence_start(line@) {
            Some(f) => r matches Some(x) && x@ == f,
            None => r is None,
        },
{
    let c = chars_of(line);
    let s = trim_start_chars(c.as_slice());
    let t3 = chars_of("```");
    assert(t3@ =~= ticks3()) by { reveal_strlit("```"); }
    if !starts_with(s.as_slice(), t3.as_slice()) {
        return None;
    }
    let rest = slice_to_vec(s.as_slice(), 3, s.len());
    assert(rest@ =~= s@.skip(3));
    let w = crate::text::trim_start_index(rest.as_slice());
    let mut k = w;
    while k < rest.len() && !is_whitespace(rest[k])
        invariant
            w <= k <= rest@.len(),
            w == leading_ws(rest@),
            first_ws(rest@.skip(w as int)) == (k - w) + first_ws(rest@.skip(k as int)),
        decreases rest.len() - k,
    {
        proof {
            assert(rest@.skip(k as int).drop_first() =~= rest@.skip(k + 1));
            assert(rest@.skip(k as int)[0] == rest@[k as int]);
        }
        k = k + 1;
    }
    proof {
        if k < rest@.len() {
            assert(rest@.skip(k as int)[0] == rest@[k as int]);
        }
        assert(first_ws(rest@.skip(k as int)) == 0);
    }
    if k == w {
        Some(string_from_chars(t3.as_slice()))
    } else {
        let f = slice_to_vec(s.as_slice(), 0, 3 + k);
        assert(f@ =~= s@.take(3 + k));
        Some(string_from_chars(f.as_slice()))
    }
}

proof fn lemma_first_ws_bound(s: Seq<char>)
    ensures first_ws(s) <= s.len(),
    decreases s.len(),
{
    if s.len() > 0 && !is_ws(s[0]) {
        lemma_first_ws_bound(s.drop_first());
    }
}

/// The language token of an opening fence: the first word after the
/// backticks, if any.
pub open spec fn spec_extract_lang(fence_line: Seq<char>) -> Option<Seq<char>> {
    let s = trim_start(fence_line);
    if !seq_starts_with(s, ticks3()) {
        None
    } else {
        let rest = trim_start(s.skip(3));
        if rest.len() == 0 || split_ws(rest).len() == 0 { None } else { Some(split_ws(rest)[0]) }
    }
}

pub fn extract_lang(fence_line: &str) -> (r: Option<String>)
    ensures
        match spec_extract_lang(fence_line@) {
            Some(l) => r matches Some(x) && x@ == l,
            None => r is None,
        },
{
    let c = chars_of(fence_line);
    let s = trim_start_chars(c.as_slice());
    let t3 = chars_of("```");
    assert(t3@ =~= ticks3()) by { reveal_strlit("```"); }
    if !starts_with(s.as_slice(), t3.as_slice()) {
        return None;
    }
    let after = slice_to_vec(s.as_slice(), 3, s.len());
    let rest = trim_start_chars(after.as_slice());
    assert(rest@ == trim_start(s@.skip(3)));
    if rest.len() == 0 {
        return None;
    }
    let words = split_whitespace(rest.as_slice());
    if words.len() == 0 {
        return None;
    }
    assert(words_view(words@)[0] == words@[0]@);
    Some(string_from_chars(words[0].as_slice()))
}

/// A table row: after leading whitespace it starts with `|` and has another `|`.
pub open spec fn spec_is_table_row(line: Seq<char>) -> bool {
    let s = trim_start(line);
    s.len() >= 2 && s[0] == '|' && s.skip(1).contains('|')
}

pub fn is_table_row(line: &str) -> (r: bool)
    ensures r == spec_is_table_row(line@),
{
    let c = chars_of(line);
    let s = trim_start_chars(c.as_slice());
    if s.len() < 2 || s[0] != '|' {
        return false;
    }
    let rest = slice_to_vec(s.as_slice(), 1, s.len());
    assert(rest@ =~= s@.skip(1));
    crate::text::contains_char(rest.as_slice(), '|')
}

/// The pieces of `s` between the separators `c` (`str::split`), from `i`.
/// The cells of a table row: the trimmed pieces between `|`s, without the
/// first and the last piece.
pub open spec fn spec_cells(line: Seq<char>) -> Seq<Seq<char>> {
    let parts = split_char(line, '|').map_values(|p: Seq<char>| trim(p));
    if parts.len() < 2 { seq![] } else { parts.subrange(1, parts.len() - 1) }
}

pub open spec fn strs(v: Seq<String>) -> Seq<Seq<char>> {
    v.map_values(|s: String| s@)
}

/// The cells of a table row.
pub fn parse_table_cells(line: &str) -> (r: Vec<String>)
    ensures strs(r@) == spec_cells(line@),
{
    let c = chars_of(line);
    let parts = split_on(c.as_slice(), '|');
    let ghost tp = split_char(line@, '|').map_values(|p: Seq<char>| trim(p));
    if parts.len() < 2 {
        return Vec::new();
    }
    let mut out: Vec<String> = Vec::new();
    let mut i: usize = 1;
    assert(strs(out@) =~= tp.subrange(1, 1));
    while i < parts.len() - 1
        invariant
            1 <= i <= parts@.len() - 1,
            parts@.len() >= 2,
            vstrs(parts@) == split_char(line@, '|'),
            tp == split_char(line@, '|').map_values(|p: Seq<char>| trim(p)),
            strs(out@) == tp.subrange(1, i as int),
        decreases parts.len() - 1 - i,
    {
        let t = trim_chars(parts[i].as_slice());
        proof {
            assert(vstrs(parts@)[i as int] == parts@[i as int]@);
            assert(tp[i as int] == trim(parts@[i as int]@));
        }
        let ghost before = out@;
        out.push(string_from_chars(t.as_slice()));
        proof {
            assert(strs(out@) =~= strs(before).push(t@));
            assert(tp.subrange(1, i + 1) =~= tp.subrange(1, i as int).push(tp[i as int]));
        }
        i = i + 1;
    }
    out
}

pub open spec fn is_dash_or_colon(c: char) -> bool {
    c == '-' || c == ':'
}

pub open spec fn sep_cell(c: Seq<char>) -> bool {
    let t = trim(c);
    t.len() > 0 && forall|k: int| 0 <= k < t.len() ==> is_dash_or_colon(#[trigger] t[k])
}

/// A separator row: cells that are all non-empty runs of `-` and `:`.
pub open spec fn spec_is_separator_row(cells: Seq<Seq<char>>) -> bool {
    cells.len() > 0 && forall|k: int| 0 <= k < cells.len() ==> sep_cell(#[trigger] cells[k])
}

fn is_sep_cell(c: &String) -> (r: bool)
    ensures r == sep_cell(c@),
{
    let cs = chars_of(c.as_str());
    let t = trim_chars(cs.as_slice());
    if t.len() == 0 {
        return false;
    }
    let mut k: usize = 0;
    while k < t.len()
        invariant
            k <= t@.len(),
            t@ == trim(c@),
            forall|j: int| 0 <= j < k ==> is_dash_or_colon(#[trigger] t@[j]),
        decreases t.len() - k,
    {
        if !(t[k] == '-' || t[k] == ':') {
            return false;
        }
        k = k + 1;
    }
    true
}

pub fn is_separator_row(cells: &[String]) -> (r: bool)
    ensures r == spec_is_separator_row(strs(cells@)),
{
    if cells.len() == 0 {
        return false;
    }
    let mut k: usize = 0;
    while k < cells.len()
        invariant
            k <= cells@.len(),
            forall|j: int| 0 <= j < k ==> sep_cell(#[trigger] strs(cells@)[j]),
        decreases cells.len() - k,
    {
        assert(strs(cells@)[k as int] == cells@[k as int]@);
        if !is_sep_cell(&cells[k]) {
            return false;
        }
        k = k + 1;
    }
    true
}

/// What `UnicodeWidthStr::width` gives for a text: its width in terminal
/// columns.
pub uninterp spec fn display_width(s: Seq<char>) -> nat;

/// The width of a cell in terminal columns (`UnicodeWidthStr::width`).
#[verifier::external_body]
pub(crate) fn cell_width(s: &str) -> (r: usize)
    ensures r as nat == display_width(s@),
{
    unicode_width::UnicodeWidthStr::width(s)
}

/// Index of the first occurrence of `needle` in `haystack` from `start`.
pub fn find_subslice(haystack: &[u8], start: usize, needle: &[u8]) -> (r: Option<usize>)
    requires
        start <= haystack@.len(),
        needle@.len() > 0,
    ensures
        match r {
            Some(p) => start <= p && crate::text::occurs_at(haystack@, needle@, p as int)
                && forall|q: int| start <= q < p ==> !crate::text::occurs_at(haystack@, needle@, q),
            None => forall|q: int| start <= q ==> !crate::text::occurs_at(haystack@, needle@, q),
        },
{
    let mut p = start;
    while p < haystack.len()
        invariant
            start <= p <= haystack@.len(),
            forall|q: int| start <= q < p ==> !crate::text::occurs_at(haystack@, needle@, q),
        decreases haystack.len() - p,
    {
        if crate::text::has_at_bytes(haystack, p, needle) {
            return Some(p);
        }
        p = p + 1;
    }
    None
}

/// Index of the first `b` in `haystack` from `start`.
pub fn find_byte(haystack: &[u8], start: usize, b: u8) -> (r: Option<usize>)
    requires start <= haystack@.len(),
    ensures
        match r {
            Some(p) => start <= p < haystack@.len() && haystack@[p as int] == b
                && forall|q: int| start <= q < p ==> haystack@[q] != b,
            None => forall|q: int| start <= q < haystack@.len() ==> haystack@[q] != b,
        },
{
    let mut p = start;
    while p < haystack.len()
        invariant
            start <= p <= haystack@.len(),
            forall|q: int| start <= q < p ==> haystack@[q] != b,
        decreases haystack.len() - p,
    {
        if haystack[p] == b {
            return Some(p);
        }
        p = p + 1;
    }
    None
}

pub open spec fn reset() -> Seq<char> { "\x1b[0m"@ }
pub open spec fn bold() -> Seq<char> { "\x1b[1m"@ }
pub open spec fn dim() -> Seq<char> { "\x1b[2m"@ }
pub open spec fn cyan() -> Seq<char> { "\x1b[36m"@ }
pub open spec fn yellow() -> Seq<char> { "\x1b[33m"@ }
pub open spec fn green() -> Seq<char> { "\x1b[32m"@ }
pub open spec fn frame() -> Seq<char> { "\x1b[1;36m"@ }

/// The text of bytes `x..y` when they are valid UTF-8 (else nothing).
pub open spec fn seg_text(b: Seq<u8>, x: int, y: int) -> Seq<char> {
    if valid_utf8(b.subrange(x, y)) { decode_utf8(b.subrange(x, y)) } else { seq![] }
}

/// The first index from `p` where `n` occurs.
pub open spec fn first_occ(b: Seq<u8>, p: int, n: Seq<u8>) -> Option<int>
    decreases b.len() - p,
{
    if p < 0 || p >= b.len() {
        None
    } else if crate::text::occurs_at(b, n, p) {
        Some(p)
    } else {
        first_occ(b, p + 1, n)
    }
}

/// The first index from `p` holding byte `c`.
pub open spec fn first_byte(b: Seq<u8>, p: int, c: u8) -> Option<int>
    decreases b.len() - p,
{
    if p < 0 || p >= b.len() {
        None
    } else if b[p] == c {
        Some(p)
    } else {
        first_byte(b, p + 1, c)
    }
}

/// The first index from `p` that does not hold a continuation byte.
pub open spec fn next_lead(b: Seq<u8>, p: int) -> int
    decreases b.len() - p,
{
    if p < 0 || p >= b.len() || !is_continuation_byte(b[p]) { p } else { next_lead(b, p + 1) }
}

pub open spec fn stars() -> Seq<u8> { seq![0x2Au8, 0x2Au8] }

/// The inline formatting of UTF-8 bytes from `i`: `**bold**` and `` `code` ``
/// styled, an unmatched marker written as it is, other characters copied.
pub open spec fn inline_from(b: Seq<u8>, i: int) -> Seq<char>
    decreases b.len() - i,
{
    if i < 0 || i >= b.len() {
        seq![]
    } else if i + 2 <= b.len() && b[i] == 0x2A && b[i + 1] == 0x2A {
        match first_occ(b, i + 2, stars()) {
            Some(e) => if e >= i + 2 && e + 2 <= b.len() {
                bold() + seg_text(b, i + 2, e) + reset() + inline_from(b, e + 2)
            } else {
                seq![]
            },
            None => "**"@ + inline_from(b, i + 2),
        }
    } else if b[i] == 0x60 {
        match first_byte(b, i + 1, 0x60) {
            Some(e) => if e >= i + 1 && e + 1 <= b.len() {
                cyan() + seg_text(b, i + 1, e) + reset() + inline_from(b, e + 1)
            } else {
                seq![]
            },
            None => "`"@ + inline_from(b, i + 1),
        }
    } else {
        let j = next_lead(b, i + 1);
        if i < j <= b.len() { seg_text(b, i, j) + inline_from(b, j) } else { seq![] }
    }
}

/// A line with its inline elements styled, ended by a newline.
pub open spec fn spec_format_inline(s: Seq<char>) -> Seq<char> {
    inline_from(encode_utf8(s), 0) + "\n"@
}

proof fn lemma_first_occ_some(b: Seq<u8>, start: int, n: Seq<u8>, p: int)
    requires
        0 <= start <= p,
        crate::text::occurs_at(b, n, p),
        n.len() > 0,
        forall|q: int| start <= q < p ==> !crate::text::occurs_at(b, n, q),
    ensures
        first_occ(b, start, n) == Some(p),
    decreases p - start,
{
    if start < p {
        lemma_first_occ_some(b, start + 1, n, p);
    }
}

proof fn lemma_first_occ_none(b: Seq<u8>, start: int, n: Seq<u8>)
    requires
        0 <= start,
        forall|q: int| start <= q ==> !crate::text::occurs_at(b, n, q),
    ensures
        first_occ(b, start, n) is None,
    decreases b.len() - start,
{
    if start < b.len() {
        lemma_first_occ_none(b, start + 1, n);
    }
}

proof fn lemma_first_byte_some(b: Seq<u8>, start: int, c: u8, p: int)
    requires
        0 <= start <= p < b.len(),
        b[p] == c,
        forall|q: int| start <= q < p ==> b[q] != c,
    ensures
        first_byte(b, start, c) == Some(p),
    decreases p - start,
{
    if start < p {
        lemma_first_byte_some(b, start + 1, c, p);
    }
}

proof fn lemma_first_byte_none(b: Seq<u8>, start: int, c: u8)
    requires
        0 <= start,
        forall|q: int| start <= q < b.len() ==> b[q] != c,
    ensures
        first_byte(b, start, c) is None,
    decreases b.len() - start,
{
    if start < b.len() {
        lemma_first_byte_none(b, start + 1, c);
    }
}

/// Appends the text of bytes `x..y` when they are valid UTF-8.
fn push_seg(out: &mut Vec<char>, b: &[u8], x: usize, y: usize)
    requires x <= y <= b@.len(),
    ensures final(out)@ == old(out)@ + seg_text(b@, x as int, y as int),
{
    let v = slice_to_vec(b, x, y);
    match utf8_text(v.as_slice()) {
        Some(t) => push_str(out, t.as_str()),
        None => {},
    }
}

/// Styles the inline elements of one line of bytes (ends with a newline).
fn inline_bytes(b: &[u8]) -> (r: Vec<char>)
    ensures r@ == inline_from(b@, 0) + "\n"@,
{
    let mut out: Vec<char> = Vec::new();
    let mut i: usize = 0;
    let st: Vec<u8> = vec![0x2Au8, 0x2Au8];
    assert(st@ == stars());
    while i < b.len()
        invariant
            i <= b@.len(),
            st@ == stars(),
            out@ + inline_from(b@, i as int) == inline_from(b@, 0),
        decreases b.len() - i,
    {
        let ghost before = out@;
        if b.len() - i >= 2 && b[i] == 0x2A && b[i + 1] == 0x2A {
            match find_subslice(b, i + 2, st.as_slice()) {
                Some(e) => {
                    proof { lemma_first_occ_some(b@, i + 2, stars(), e as int); }
                    push_str(&mut out, BOLD);
                    push_seg(&mut out, b, i + 2, e);
                    push_str(&mut out, RESET);
                    i = e + 2;
                },
                None => {
                    proof { lemma_first_occ_none(b@, i + 2, stars()); }
                    push_str(&mut out, "**");
                    i = i + 2;
                },
            }
        } else if b[i] == 0x60 {
            match find_byte(b, i + 1, 0x60) {
                Some(e) => {
                    proof { lemma_first_byte_some(b@, i + 1, 0x60, e as int); }
                    push_str(&mut out, CYAN);
                    push_seg(&mut out, b, i + 1, e);
                    push_str(&mut out, RESET);
                    i = e + 1;
                },
                None => {
                    proof { lemma_first_byte_none(b@, i + 1, 0x60); }
                    push_str(&mut out, "`");
                    i = i + 1;
                },
            }
        } else {
            let start = i;
            i = i + 1;
            while i < b.len() && 0x80 <= b[i] && b[i] <= 0xbf
                invariant
                    start < i <= b@.len(),
                    next_lead(b@, i as int) == next_lead(b@, start + 1),
                decreases b.len() - i,
            {
                i = i + 1;
            }
            push_seg(&mut out, b, start, i);
        }
    }
    push_str(&mut out, "\n");
    out
}

/// Styles the inline elements of a line: `**bold**` in bold and
/// `` `code` `` in cyan; the result ends with a newline.
pub fn format_inline(s: &str) -> (r: String)
    ensures r@ == spec_format_inline(s@),
{
    let v = inline_bytes(s.as_bytes());
    string_from_chars(v.as_slice())
}

pub open spec fn is_ascii_digit(c: char) -> bool {
    '0' <= c <= '9'
}

/// A list item: `- `, `* ` or a digit and `. `.
pub open spec fn spec_list_rest(s: Seq<char>) -> Option<Seq<char>> {
    if seq_starts_with(s, "- "@) || seq_starts_with(s, "* "@) {
        Some(s.skip(2))
    } else if s.len() >= 3 && is_ascii_digit(s[0]) && s[1] == '.' && s[2] == ' ' {
        Some(s.skip(3))
    } else {
        None
    }
}

/// One line of Markdown for the terminal: a heading in bold colour, a list
/// item behind a dimmed bullet, an empty line, or the line with its inline
/// elements styled; each ends with a newline.
pub open spec fn spec_format_line(line: Seq<char>) -> Seq<char> {
    let s = trim_start(line);
    if seq_starts_with(s, "### "@) {
        green() + bold() + s.skip(4) + reset() + "\n"@
    } else if seq_starts_with(s, "## "@) {
        yellow() + bold() + s.skip(3) + reset() + "\n"@
    } else if seq_starts_with(s, "# "@) {
        yellow() + bold() + s.skip(2) + reset() + "\n"@
    } else {
        match spec_list_rest(s) {
            Some(rest) => "  "@ + dim() + "•"@ + reset() + " "@ + spec_format_inline(rest),
            None => if s.len() == 0 { "\n"@ } else { spec_format_inline(s) },
        }
    }
}

fn starts_lit(s: &Vec<char>, lit: &str) -> (r: bool)
    ensures r == seq_starts_with(s@, lit@),
{
    let l = chars_of(lit);
    starts_with(s.as_slice(), l.as_slice())
}

fn skip_to_string(s: &Vec<char>, k: usize) -> (r: String)
    requires k <= s@.len(),
    ensures r@ == s@.skip(k as int),
{
    let v = slice_to_vec(s.as_slice(), k, s.len());
    assert(v@ =~= s@.skip(k as int));
    string_from_chars(v.as_slice())
}

pub fn format_line(line: &str) -> (r: String)
    ensures r@ == spec_format_line(line@),
{
    let c = chars_of(line);
    let s = trim_start_chars(c.as_slice());
    let mut out: Vec<char> = Vec::new();
    proof {
        reveal_strlit("### ");
        reveal_strlit("## ");
        reveal_strlit("# ");
        reveal_strlit("- ");
        reveal_strlit("* ");
    }
    if starts_lit(&s, "### ") {
        push_str(&mut out, GREEN);
        push_str(&mut out, BOLD);
        extend_all(&mut out, slice_to_vec(s.as_slice(), 4, s.len()).as_slice());
        push_str(&mut out, RESET);
        push_str(&mut out, "\n");
        assert(s@.subrange(4, s@.len() as int) =~= s@.skip(4));
    } else if starts_lit(&s, "## ") {
        push_str(&mut out, YELLOW);
        push_str(&mut out, BOLD);
        extend_all(&mut out, slice_to_vec(s.as_slice(), 3, s.len()).as_slice());
        push_str(&mut out, RESET);
        push_str(&mut out, "\n");
        assert(s@.subrange(3, s@.len() as int) =~= s@.skip(3));
    } else if starts_lit(&s, "# ") {
        push_str(&mut out, YELLOW);
        push_str(&mut out, BOLD);
        extend_all(&mut out, slice_to_vec(s.as_slice(), 2, s.len()).as_slice());
        push_str(&mut out, RESET);
        push_str(&mut out, "\n");
        assert(s@.subrange(2, s@.len() as int) =~= s@.skip(2));
    } else {
        let rest: Option<String> = if starts_lit(&s, "- ") || starts_lit(&s, "* ") {
            Some(skip_to_string(&s, 2))
        } else if s.len() >= 3 && '0' <= s[0] && s[0] <= '9' && s[1] == '.' && s[2] == ' ' {
            Some(skip_to_string(&s, 3))
        } else {
            None
        };
        match rest {
            Some(r) => {
                push_str(&mut out, "  ");
                push_str(&mut out, DIM);
                push_str(&mut out, "•");
                push_str(&mut out, RESET);
                push_str(&mut out, " ");
                let f = format_inline(r.as_str());
                push_str(&mut out, f.as_str());
            },
            None => {
                if s.len() == 0 {
                    push_str(&mut out, "\n");
                } else {
                    let f = format_inline(string_from_chars(s.as_slice()).as_str());
                    push_str(&mut out, f.as_str());
                }
            },
        }
    }
    string_from_chars(out.as_slice())
}

pub open spec fn repeat(c: char, n: nat) -> Seq<char> {
    Seq::new(n, |k: int| c)
}

pub open spec fn max_nat(a: nat, b: nat) -> nat {
    if a >= b { a } else { b }
}

/// The cells of each line.
pub open spec fn table_rows(lines: Seq<Seq<char>>) -> Seq<Seq<Seq<char>>> {
    lines.map_values(|l: Seq<char>| spec_cells(l))
}

/// The most cells a row has, over the first `k` rows.
pub open spec fn ncols_upto(rows: Seq<Seq<Seq<char>>>, k: int) -> nat
    decreases k,
{
    if k <= 0 || k > rows.len() { 0 } else { max_nat(ncols_upto(rows, k - 1), rows[k - 1].len()) }
}

/// The width of column `j` over the first `k` rows: the widest of its cells
/// in rows that are not separators.
pub open spec fn col_width_upto(rows: Seq<Seq<Seq<char>>>, j: int, k: int) -> nat
    decreases k,
{
    if k <= 0 || k > rows.len() {
        0
    } else {
        let prev = col_width_upto(rows, j, k - 1);
        let r = rows[k - 1];
        if !spec_is_separator_row(r) && 0 <= j < r.len() { max_nat(prev, display_width(r[j])) } else { prev }
    }
}

/// Index of the first separator row, if any.
pub open spec fn first_sep_from(rows: Seq<Seq<Seq<char>>>, i: int) -> Option<int>
    decreases rows.len() - i,
{
    if i < 0 || i >= rows.len() {
        None
    } else if spec_is_separator_row(rows[i]) {
        Some(i)
    } else {
        first_sep_from(rows, i + 1)
    }
}

/// Where the numbered data rows start: after the separator row, else after the first row.
pub open spec fn data_start(rows: Seq<Seq<Seq<char>>>) -> int {
    match first_sep_from(rows, 0) {
        Some(p) => p + 1,
        None => 1,
    }
}

pub open spec fn is_data_row(rows: Seq<Seq<Seq<char>>>, i: int) -> bool {
    i >= data_start(rows) && !spec_is_separator_row(rows[i])
}

/// Number of data rows among the first `k` rows.
pub open spec fn data_count_upto(rows: Seq<Seq<Seq<char>>>, k: int) -> nat
    decreases k,
{
    if k <= 0 || k > rows.len() { 0 } else { data_count_upto(rows, k - 1) + if is_data_row(rows, k - 1) { 1nat } else { 0nat } }
}

/// Width of the row-number column.
pub open spec fn row_num_width(rows: Seq<Seq<Seq<char>>>) -> nat {
    let n = data_count_upto(rows, rows.len() as int);
    if n == 0 { 0 } else { decimal(n).len() }
}

/// `n` right-aligned in `w` columns.
pub open spec fn right_align(n: nat, w: nat) -> Seq<char> {
    let d = decimal(n);
    if d.len() < w { repeat(' ', (w - d.len()) as nat) + d } else { d }
}

/// What comes before a row's first `|`: its number for a data row, else padding.
pub open spec fn prefix_piece(is_data: bool, num: nat, w: nat) -> Seq<char> {
    if is_data {
        " "@ + dim() + right_align(num, w) + ". "@ + reset()
    } else if w > 0 {
        repeat(' ', w + 3)
    } else {
        seq![]
    }
}

pub open spec fn row_prefix(rows: Seq<Seq<Seq<char>>>, i: int) -> Seq<char> {
    prefix_piece(is_data_row(rows, i), (i - data_start(rows) + 1) as nat, row_num_width(rows))
}

pub open spec fn bar() -> Seq<char> {
    frame() + "|"@ + reset()
}

pub open spec fn cell_at(r: Seq<Seq<char>>, j: int) -> Seq<char> {
    if 0 <= j < r.len() { r[j] } else { seq![] }
}

pub open spec fn pad_for(w: nat, c: Seq<char>) -> Seq<char> {
    if display_width(c) < w { repeat(' ', (w - display_width(c)) as nat) } else { seq![] }
}

/// Column `j` of row `i`: dashes for a separator row, a bold yellow cell in
/// the header, a plain cell elsewhere, each padded to the column's width.
pub open spec fn cell_piece(sep: bool, header: bool, cell: Seq<char>, w: nat) -> Seq<char> {
    if sep {
        " "@ + frame() + repeat('-', max_nat(w, 1)) + reset() + " "@ + bar()
    } else if header {
        " "@ + yellow() + bold() + cell + reset() + pad_for(w, cell) + " "@ + bar()
    } else {
        " "@ + cell + pad_for(w, cell) + " "@ + bar()
    }
}

pub open spec fn cell_text(rows: Seq<Seq<Seq<char>>>, i: int, j: int) -> Seq<char> {
    cell_piece(spec_is_separator_row(rows[i]), i == 0, cell_at(rows[i], j), col_width_upto(rows, j, rows.len() as int))
}

/// Columns `0..k` of row `i`.
pub open spec fn cells_text(rows: Seq<Seq<Seq<char>>>, i: int, k: int) -> Seq<char>
    decreases k,
{
    if k <= 0 { seq![] } else { cells_text(rows, i, k - 1) + cell_text(rows, i, k - 1) }
}

pub open spec fn row_text(rows: Seq<Seq<Seq<char>>>, i: int) -> Seq<char> {
    row_prefix(rows, i) + bar() + cells_text(rows, i, ncols_upto(rows, rows.len() as int) as int) + "\n"@
}

/// Rows `0..k`.
pub open spec fn rows_text(rows: Seq<Seq<Seq<char>>>, k: int) -> Seq<char>
    decreases k,
{
    if k <= 0 { seq![] } else { rows_text(rows, k - 1) + row_text(rows, k - 1) }
}

/// The lines as they are, each ended by a newline.
pub open spec fn plain_lines(lines: Seq<Seq<char>>, k: int) -> Seq<char>
    decreases k,
{
    if k <= 0 { seq![] } else { plain_lines(lines, k - 1) + lines[k - 1] + "\n"@ }
}

/// A table laid out in aligned columns; lines without any cells are
/// written as they are.
pub open spec fn spec_output_table(lines: Seq<Seq<char>>) -> Seq<char> {
    let rows = table_rows(lines);
    if ncols_upto(rows, rows.len() as int) == 0 {
        plain_lines(lines, lines.len() as int)
    } else {
        rows_text(rows, rows.len() as int)
    }
}

fn push_repeat(out: &mut Vec<char>, c: char, n: usize)
    ensures final(out)@ == old(out)@ + repeat(c, n as nat),
{
    let ghost o = out@;
    let mut k: usize = 0;
    while k < n
        invariant
            k <= n,
            out@ == o + repeat(c, k as nat),
        decreases n - k,
    {
        out.push(c);
        k = k + 1;
        assert(out@ =~= o + repeat(c, k as nat));
    }
}

fn push_prefix(out: &mut Vec<char>, is_data: bool, num: usize, w: usize)
    ensures final(out)@ == old(out)@ + prefix_piece(is_data, num as nat, w as nat),
{
    let ghost o = out@;
    if is_data {
        push_str(out, " ");
        push_str(out, DIM);
        let d = decimal_chars(num as u64);
        if d.len() < w {
            push_repeat(out, ' ', w - d.len());
        }
        extend_all(out, d.as_slice());
        push_str(out, ". ");
        push_str(out, RESET);
    } else if w > 0 {
        push_repeat(out, ' ', w);
        push_repeat(out, ' ', 3);
        assert(repeat(' ', w as nat) + repeat(' ', 3) =~= repeat(' ', (w + 3) as nat));
    }
    assert(out@ =~= o + prefix_piece(is_data, num as nat, w as nat));
}

#[verifier::rlimit(40)]
fn push_cell(out: &mut Vec<char>, sep: bool, header: bool, cell: &String, w: usize)
    ensures final(out)@ == old(out)@ + cell_piece(sep, header, cell@, w as nat),
{
    let ghost o = out@;
    if sep {
        push_str(out, " ");
        push_str(out, TABLE_FRAME);
        push_repeat(out, '-', if w > 1 { w } else { 1 });
        push_str(out, RESET);
        push_str(out, " ");
    } else {
        let cw = cell_width(cell.as_str());
        push_str(out, " ");
        if header {
            push_str(out, YELLOW);
            push_str(out, BOLD);
            push_str(out, cell.as_str());
            push_str(out, RESET);
        } else {
            push_str(out, cell.as_str());
        }
        if cw < w {
            push_repeat(out, ' ', w - cw);
        }
        push_str(out, " ");
    }
    push_str(out, TABLE_FRAME);
    push_str(out, "|");
    push_str(out, RESET);
    assert(out@ =~= o + cell_piece(sep, header, cell@, w as nat));
}

/// Appends the columns of row `i2`.
fn push_cells(out: &mut Vec<char>, rows: &Vec<Vec<String>>, i2: usize, sep: bool, widths: &Vec<usize>, ncols: usize, Ghost(rv): Ghost<Seq<Seq<Seq<char>>>>)
    requires
        i2 < rows@.len(),
        rows_view(rows@) == rv,
        rv.len() == rows@.len(),
        sep == spec_is_separator_row(rv[i2 as int]),
        widths@.len() == ncols,
        forall|jj: int| 0 <= jj < ncols ==> widths@[jj] as nat == #[trigger] col_width_upto(rv, jj, rv.len() as int),
    ensures
        final(out)@ == old(out)@ + cells_text(rv, i2 as int, ncols as int),
{
    let ghost o = out@;
    assert(rv[i2 as int] == strs(rows@[i2 as int]@));
    let mut c: usize = 0;
    while c < ncols
        invariant
            c <= ncols,
            i2 < rows@.len(),
            rv[i2 as int] == strs(rows@[i2 as int]@),
            sep == spec_is_separator_row(rv[i2 as int]),
            widths@.len() == ncols,
            forall|jj: int| 0 <= jj < ncols ==> widths@[jj] as nat == #[trigger] col_width_upto(rv, jj, rv.len() as int),
            out@ == o + cells_text(rv, i2 as int, c as int),
        decreases ncols - c,
    {
        let ghost bc = out@;
        let w = widths[c];
        assert(w as nat == col_width_upto(rv, c as int, rv.len() as int));
        let cell: String = if c < rows[i2].len() {
            assert(strs(rows@[i2 as int]@)[c as int] == rows@[i2 as int]@[c as int]@);
            rows[i2][c].clone()
        } else {
            String::new()
        };
        assert(cell@ == cell_at(rv[i2 as int], c as int));
        push_cell(out, sep, i2 == 0, &cell, w);
        assert(out@ =~= bc + cell_text(rv, i2 as int, c as int));
        c = c + 1;
    }
}

pub open spec fn rows_view(rows: Seq<Vec<String>>) -> Seq<Seq<Seq<char>>> {
    rows.map_values(|r: Vec<String>| strs(r@))
}

proof fn lemma_ncols_bound(rows: Seq<Seq<Seq<char>>>, k: int, i: int)
    requires 0 <= i < k <= rows.len(),
    ensures rows[i].len() <= ncols_upto(rows, k),
    decreases k,
{
    if i < k - 1 {
        lemma_ncols_bound(rows, k - 1, i);
    }
}

proof fn lemma_first_sep_some(rows: Seq<Seq<Seq<char>>>, i: int, p: int)
    requires
        0 <= i <= p < rows.len(),
        spec_is_separator_row(rows[p]),
        forall|q: int| i <= q < p ==> !spec_is_separator_row(#[trigger] rows[q]),
    ensures first_sep_from(rows, i) == Some(p),
    decreases p - i,
{
    if i < p {
        lemma_first_sep_some(rows, i + 1, p);
    }
}

proof fn lemma_first_sep_none(rows: Seq<Seq<Seq<char>>>, i: int)
    requires
        0 <= i,
        forall|q: int| i <= q < rows.len() ==> !spec_is_separator_row(#[trigger] rows[q]),
    ensures first_sep_from(rows, i) is None,
    decreases rows.len() - i,
{
    if i < rows.len() {
        lemma_first_sep_none(rows, i + 1);
    }
}

/// The table's lines laid out in aligned columns (see `spec_output_table`).
#[verifier::rlimit(40)]
pub fn output_table(lines: &[String]) -> (r: String)
    ensures r@ == spec_output_table(strs(lines@)),
{
    let ghost lv = strs(lines@);
    let ghost rv = table_rows(lv);
    let mut rows: Vec<Vec<String>> = Vec::new();
    let mut i: usize = 0;
    while i < lines.len()
        invariant
            i <= lines@.len(),
            lv == strs(lines@),
            rv == table_rows(lv),
            rows@.len() == i,
            forall|q: int| 0 <= q < i ==> strs(#[trigger] rows@[q]@) == rv[q],
        decreases lines.len() - i,
    {
        let cells = parse_table_cells(lines[i].as_str());
        assert(lv[i as int] == lines@[i as int]@);
        rows.push(cells);
        i = i + 1;
    }
    assert(rows_view(rows@) =~= rv);
    let mut ncols: usize = 0;
    let mut k: usize = 0;
    while k < rows.len()
        invariant
            k <= rows@.len(),
            rows_view(rows@) == rv,
            ncols as nat == ncols_upto(rv, k as int),
            ncols <= k || ncols == 0 || ncols as nat <= ncols_upto(rv, k as int),
        decreases rows.len() - k,
    {
        assert(rv[k as int] == strs(rows@[k as int]@));
        if rows[k].len() > ncols {
            ncols = rows[k].len();
        }
        k = k + 1;
    }
    let mut out: Vec<char> = Vec::new();
    if ncols == 0 {
        let mut q: usize = 0;
        while q < lines.len()
            invariant
                q <= lines@.len(),
                lv == strs(lines@),
                out@ == plain_lines(lv, q as int),
            decreases lines.len() - q,
        {
            assert(lv[q as int] == lines@[q as int]@);
            push_str(&mut out, lines[q].as_str());
            push_str(&mut out, "\n");
            q = q + 1;
        }
        return string_from_chars(out.as_slice());
    }
    // column widths
    let mut widths: Vec<usize> = Vec::new();
    let mut j: usize = 0;
    while j < ncols
        invariant
            j <= ncols,
            widths@.len() == j,
            forall|jj: int| 0 <= jj < j ==> widths@[jj] == 0,
        decreases ncols - j,
    {
        widths.push(0);
        j = j + 1;
    }
    let mut r: usize = 0;
    while r < rows.len()
        invariant
            r <= rows@.len(),
            rows_view(rows@) == rv,
            ncols as nat == ncols_upto(rv, rv.len() as int),
            rv.len() == rows@.len(),
            widths@.len() == ncols,
            forall|jj: int| 0 <= jj < ncols ==> widths@[jj] as nat == #[trigger] col_width_upto(rv, jj, r as int),
        decreases rows.len() - r,
    {
        assert(rv[r as int] == strs(rows@[r as int]@));
        let sep = is_separator_row(rows[r].as_slice());
        proof { lemma_ncols_bound(rv, rv.len() as int, r as int); }
        if !sep {
            let mut c: usize = 0;
            while c < rows[r].len()
                invariant
                    r < rows@.len(),
                    c <= rows@[r as int]@.len(),
                    rows@[r as int]@.len() <= ncols,
                    rows_view(rows@) == rv,
                    rv[r as int] == strs(rows@[r as int]@),
                    !spec_is_separator_row(rv[r as int]),
                    widths@.len() == ncols,
                    forall|jj: int| 0 <= jj < c ==> widths@[jj] as nat == #[trigger] col_width_upto(rv, jj, r + 1),
                    forall|jj: int| c <= jj < ncols ==> widths@[jj] as nat == #[trigger] col_width_upto(rv, jj, r as int),
                decreases rows@[r as int]@.len() - c,
            {
                let w = cell_width(rows[r][c].as_str());
                assert(strs(rows@[r as int]@)[c as int] == rows@[r as int]@[c as int]@);
                if w > widths[c] {
                    widths.set(c, w);
                }
                assert(col_width_upto(rv, c as int, r + 1) == max_nat(col_width_upto(rv, c as int, r as int), display_width(rv[r as int][c as int])));
                c = c + 1;
            }
            assert forall|jj: int| 0 <= jj < ncols implies widths@[jj] as nat == #[trigger] col_width_upto(rv, jj, r + 1) by {
                if jj >= rows@[r as int]@.len() {
                    assert(col_width_upto(rv, jj, r + 1) == col_width_upto(rv, jj, r as int));
                }
            }
        } else {
            assert forall|jj: int| 0 <= jj < ncols implies widths@[jj] as nat == #[trigger] col_width_upto(rv, jj, r + 1) by {
                assert(col_width_upto(rv, jj, r + 1) == col_width_upto(rv, jj, r as int));
            }
        }
        r = r + 1;
    }
    // where the data rows start
    let mut p: usize = 0;
    while p < rows.len() && !is_separator_row(rows[p].as_slice())
        invariant
            p <= rows@.len(),
            rows_view(rows@) == rv,
            rv.len() == rows@.len(),
            forall|q: int| 0 <= q < p ==> !spec_is_separator_row(#[trigger] rv[q]),
        decreases rows.len() - p,
    {
        assert(rv[p as int] == strs(rows@[p as int]@));
        p = p + 1;
    }
    let ds: usize = if p < rows.len() {
        assert(rv[p as int] == strs(rows@[p as int]@));
        proof { lemma_first_sep_some(rv, 0, p as int); }
        p + 1
    } else {
        proof { lemma_first_sep_none(rv, 0); }
        1
    };
    assert(ds as int == data_start(rv));
    // number of data rows
    let mut n_data: usize = 0;
    let mut q: usize = 0;
    while q < rows.len()
        invariant
            q <= rows@.len(),
            rows_view(rows@) == rv,
            rv.len() == rows@.len(),
            ds as int == data_start(rv),
            n_data <= q,
            n_data as nat == data_count_upto(rv, q as int),
        decreases rows.len() - q,
    {
        assert(rv[q as int] == strs(rows@[q as int]@));
        if q >= ds && !is_separator_row(rows[q].as_slice()) {
            n_data = n_data + 1;
        }
        q = q + 1;
    }
    let digits = decimal_chars(n_data as u64);
    let rnw: usize = if n_data == 0 { 0 } else { digits.len() };
    assert(rnw as nat == row_num_width(rv));
    proof { crate::text::lemma_decimal_len(n_data as nat); }
    // the rows
    let mut i2: usize = 0;
    while i2 < rows.len()
        invariant
            i2 <= rows@.len(),
            rows_view(rows@) == rv,
            rv.len() == rows@.len(),
            ds as int == data_start(rv),
            rnw as nat == row_num_width(rv),
            ncols as nat == ncols_upto(rv, rv.len() as int),
            widths@.len() == ncols,
            forall|jj: int| 0 <= jj < ncols ==> widths@[jj] as nat == #[trigger] col_width_upto(rv, jj, rv.len() as int),
            out@ == rows_text(rv, i2 as int),
        decreases rows.len() - i2,
    {
        let ghost before = out@;
        assert(rv[i2 as int] == strs(rows@[i2 as int]@));
        let sep = is_separator_row(rows[i2].as_slice());
        let is_data = i2 >= ds && !sep;
        let num: usize = if is_data { i2 - ds + 1 } else { 0 };
        push_prefix(&mut out, is_data, num, rnw);
        assert(out@ =~= before + row_prefix(rv, i2 as int));
        push_str(&mut out, TABLE_FRAME);
        push_str(&mut out, "|");
        push_str(&mut out, RESET);
        push_cells(&mut out, &rows, i2, sep, &widths, ncols, Ghost(rv));
        push_str(&mut out, "\n");
        assert(out@ =~= before + row_text(rv, i2 as int));
        i2 = i2 + 1;
    }
    string_from_chars(out.as_slice())
}

/// Whether syntect's default syntaxes have one for a language token
/// (`SyntaxSet::find_syntax_by_token`).
pub uninterp spec fn syntect_has_syntax(token: Seq<char>) -> bool;

/// What syntect gives for the pieces of a code text highlighted as the
/// syntax of `token` with a theme of the default set (by name, or the first
/// of the set for `None`): for each piece the 24-bit terminal escapes of its
/// highlighted regions, or `None` where highlighting that piece failed; the
/// whole is `None` when there is no such theme.
pub uninterp spec fn syntect_highlight_lines(
    token: Seq<char>,
    theme: Option<Seq<char>>,
    pieces: Seq<Seq<char>>,
) -> Option<Seq<Option<Seq<char>>>>;

/// Whether syntect's default theme set has a theme of that name.
pub uninterp spec fn syntect_has_theme(name: Seq<char>) -> bool;

/// Each optional string by its characters.
pub open spec fn opt_views(v: Seq<Option<String>>) -> Seq<Option<Seq<char>>> {
    v.map_values(|o: Option<String>| crate::jsonl::opt_view(o))
}

/// Whether syntect knows a language token (`find_syntax_by_token` on the
/// default syntaxes).
#[verifier::external_body]
fn has_syntax(token: &str) -> (r: bool)
    ensures r == syntect_has_syntax(token@),
{
    SyntaxSet::load_defaults_newlines().find_syntax_by_token(token).is_some()
}

/// Whether the default theme set (`ThemeSet::load_defaults`) has a theme of
/// that name.
#[verifier::external_body]
fn has_theme(name: &str) -> (r: bool)
    ensures r == syntect_has_theme(name@),
{
    ThemeSet::load_defaults().themes.contains_key(name)
}

/// Highlights the pieces of a code text, one after the other with one
/// `HighlightLines` (so each piece is parsed in the state the pieces before
/// it left), as the syntax of `token` and with the named theme of the
/// default set (the set's first theme for `None`). Each piece gives
/// `as_24_bit_terminal_escaped` of its regions, or `None` where
/// `highlight_line` failed; one result per piece; `None` when the theme
/// is missing.
#[verifier::external_body]
fn highlight_lines(token: &str, theme: Option<String>, pieces: &[String]) -> (r: Option<Vec<Option<String>>>)
    ensures
        match syntect_highlight_lines(token@, crate::jsonl::opt_view(theme), strs(pieces@)) {
            Some(h) => r matches Some(v) && opt_views(v@) == h,
            None => r is None,
        },
        r matches Some(v) ==> v@.len() == pieces@.len(),
{
    let (ps, ts) = (SyntaxSet::load_defaults_newlines(), ThemeSet::load_defaults());
    let syn = ps.find_syntax_by_token(token).unwrap_or_else(|| ps.find_syntax_plain_text());
    let th = match theme {
        Some(n) => ts.themes.get(&n),
        None => ts.themes.values().next(),
    }?;
    let mut h = HighlightLines::new(syn, th);
    Some(pieces.iter().map(|l| h.highlight_line(l, &ps).ok().map(|r| as_24_bit_terminal_escaped(&r, false))).collect())
}

/// The light theme code is highlighted with: the first of "Solarized
/// (light)", "InspiredGitHub" and "base16-ocean.light" that the default set
/// has; `None` (the set's first theme) when it has none of them.
pub open spec fn spec_light_theme() -> Option<Seq<char>> {
    if syntect_has_theme("Solarized (light)"@) {
        Some("Solarized (light)"@)
    } else if syntect_has_theme("InspiredGitHub"@) {
        Some("InspiredGitHub"@)
    } else if syntect_has_theme("base16-ocean.light"@) {
        Some("base16-ocean.light"@)
    } else {
        None
    }
}

fn light_theme() -> (r: Option<String>)
    ensures crate::jsonl::opt_view(r) == spec_light_theme(),
{
    if has_theme("Solarized (light)") {
        Some(String::from_str("Solarized (light)"))
    } else if has_theme("InspiredGitHub") {
        Some(String::from_str("InspiredGitHub"))
    } else if has_theme("base16-ocean.light") {
        Some(String::from_str("base16-ocean.light"))
    } else {
        None
    }
}

/// A text cut after each newline: every piece but the last ends with its
/// newline, and none is empty.
pub open spec fn pieces(s: Seq<char>) -> Seq<Seq<char>>
    decreases s.len(),
{
    if s.len() == 0 {
        seq![]
    } else {
        let p = pieces(s.drop_last());
        if p.len() == 0 || p.last().last() == '\n' {
            p.push(seq![s.last()])
        } else {
            p.update(p.len() - 1, p.last().push(s.last()))
        }
    }
}

fn cut_pieces(s: &Vec<char>) -> (r: Vec<String>)
    ensures strs(r@) == pieces(s@),
{
    let mut out: Vec<String> = Vec::new();
    let mut cur: Vec<char> = Vec::new();
    let mut i: usize = 0;
    while i < s.len()
        invariant
            i <= s@.len(),
            pieces(s@.take(i as int)) == strs(out@) + (if cur@.len() > 0 { seq![cur@] } else { Seq::<Seq<char>>::empty() }),
            cur@.len() > 0 ==> cur@.last() != '\n',
            forall|k: int| 0 <= k < out@.len() ==> #[trigger] out@[k]@.len() > 0 && out@[k]@.last() == '\n',
        decreases s@.len() - i,
    {
        let c = s[i];
        let ghost p = pieces(s@.take(i as int));
        let ghost before = out@;
        let ghost cur0 = cur@;
        proof {
            assert(s@.take(i + 1).drop_last() =~= s@.take(i as int));
            assert(s@.take(i + 1).last() == c);
            let q = pieces(s@.take(i + 1));
            if cur0.len() > 0 {
                assert(p.last() == cur0);
                assert(q =~= strs(before).push(cur0.push(c)));
            } else {
                assert(p =~= strs(before));
                if p.len() > 0 {
                    assert(p.last() == before[before.len() - 1]@);
                }
                assert(q =~= strs(before).push(seq![c]));
            }
            assert(cur0.push(c) =~= if cur0.len() > 0 { cur0.push(c) } else { seq![c] });
        }
        cur.push(c);
        if c == '\n' {
            let piece = string_from_chars(cur.as_slice());
            out.push(piece);
            cur = Vec::new();
            assert(strs(out@) =~= strs(before).push(piece@));
        } else {
            assert(strs(out@) =~= strs(before));
        }
        i = i + 1;
        proof {
            let q = pieces(s@.take(i as int));
            assert(q =~= strs(out@) + (if cur@.len() > 0 { seq![cur@] } else { Seq::<Seq<char>>::empty() }));
        }
    }
    assert(s@.take(s@.len() as int) =~= s@);
    if cur.len() > 0 {
        let ghost before = out@;
        let piece = string_from_chars(cur.as_slice());
        out.push(piece);
        assert(strs(out@) =~= strs(before).push(piece@));
    }
    out
}

/// Each piece as highlighted, or as it is where highlighting failed, each
/// followed by a reset.
pub open spec fn hl_body(ps: Seq<Seq<char>>, hs: Seq<Option<Seq<char>>>) -> Seq<char>
    decreases ps.len(),
{
    if ps.len() == 0 {
        seq![]
    } else {
        let k = ps.len() - 1;
        hl_body(ps.drop_last(), hs) + match hs[k] {
            Some(h) => h,
            None => ps[k],
        } + reset()
    }
}

fn push_highlighted(out: &mut Vec<char>, ps: &Vec<String>, hs: &Vec<Option<String>>)
    requires hs@.len() == ps@.len(),
    ensures final(out)@ == old(out)@ + hl_body(strs(ps@), opt_views(hs@)),
{
    let ghost o = out@;
    let ghost hv = opt_views(hs@);
    let mut k: usize = 0;
    while k < ps.len()
        invariant
            k <= ps@.len(),
            hs@.len() == ps@.len(),
            hv == opt_views(hs@),
            out@ == o + hl_body(strs(ps@).take(k as int), hv),
        decreases ps@.len() - k,
    {
        match &hs[k] {
            Some(h) => push_str(out, h.as_str()),
            None => push_str(out, ps[k].as_str()),
        }
        push_str(out, RESET);
        proof {
            let t = strs(ps@).take(k + 1);
            assert(t.drop_last() =~= strs(ps@).take(k as int));
            assert(t[k as int] == ps@[k as int]@);
            assert(hv[k as int] == crate::jsonl::opt_view(hs@[k as int]));
        }
        k = k + 1;
    }
    assert(strs(ps@).take(ps@.len() as int) =~= strs(ps@));
}

/// Language names that fall back to the `sh` syntax.
pub open spec fn is_shell_name(l: Seq<char>) -> bool {
    ||| crate::text::ascii_ci_eq(l, "bash"@)
    ||| crate::text::ascii_ci_eq(l, "zsh"@)
    ||| crate::text::ascii_ci_eq(l, "sh"@)
    ||| crate::text::ascii_ci_eq(l, "shell"@)
    ||| crate::text::ascii_ci_eq(l, "shellscript"@)
}

/// The token whose syntax highlights a language: the language itself when
/// syntect knows it, `sh` for shell names, else none.
pub open spec fn spec_resolve_syntax(lang: Seq<char>) -> Option<Seq<char>> {
    if syntect_has_syntax(lang) {
        Some(lang)
    } else if is_shell_name(lang) && syntect_has_syntax("sh"@) {
        Some("sh"@)
    } else {
        None
    }
}

fn ci_is(l: &Vec<char>, name: &str) -> (r: bool)
    ensures r == crate::text::ascii_ci_eq(l@, name@),
{
    let n = chars_of(name);
    crate::text::eq_ignore_ascii_case(l.as_slice(), n.as_slice())
}

pub fn resolve_syntax(lang: &str) -> (r: Option<String>)
    ensures
        match spec_resolve_syntax(lang@) {
            Some(t) => r matches Some(x) && x@ == t,
            None => r is None,
        },
{
    if has_syntax(lang) {
        return Some(String::from_str(lang));
    }
    let l = chars_of(lang);
    let shell = ci_is(&l, "bash") || ci_is(&l, "zsh") || ci_is(&l, "sh") || ci_is(&l, "shell") || ci_is(&l, "shellscript");
    if shell && has_syntax("sh") {
        Some(String::from_str("sh"))
    } else {
        None
    }
}

/// Lines joined with newlines.
pub open spec fn join_nl(ls: Seq<Seq<char>>) -> Seq<char>
    decreases ls.len(),
{
    if ls.len() == 0 { seq![] } else if ls.len() == 1 { ls[0] } else { join_nl(ls.drop_last()) + "\n"@ + ls.last() }
}

/// Each line dimmed, on a line of its own.
pub open spec fn dim_lines(ls: Seq<Seq<char>>) -> Seq<char>
    decreases ls.len(),
{
    if ls.len() == 0 { seq![] } else { dim_lines(ls.drop_last()) + dim() + ls.last() + reset() + "\n"@ }
}

/// A fenced code block for the terminal: the fences dimmed, and the code
/// highlighted piece by piece with the light theme when its language is
/// known (else dimmed).
pub open spec fn spec_code_block(lines: Seq<Seq<char>>) -> Seq<char> {
    if lines.len() == 0 {
        seq![]
    } else {
        let first = dim() + lines[0] + reset() + "\n"@;
        if lines.len() <= 1 {
            first
        } else {
            let has_closing = spec_is_fence(lines.last());
            let content = if has_closing { lines.subrange(1, lines.len() - 1) } else { lines.skip(1) };
            let tok = match spec_extract_lang(crate::text::trim_end(lines[0])) {
                Some(l) => spec_resolve_syntax(l),
                None => None,
            };
            let body = match tok {
                Some(t) => if content.len() > 0 {
                    let ps = pieces(join_nl(content) + "\n"@);
                    match syntect_highlight_lines(t, spec_light_theme(), ps) {
                        Some(hs) => hl_body(ps, hs),
                        None => dim_lines(content),
                    }
                } else {
                    seq![]
                },
                None => dim_lines(content),
            };
            first + body + if has_closing { dim() + lines.last() + reset() + "\n"@ } else { seq![] }
        }
    }
}

fn push_dim_line(out: &mut Vec<char>, l: &String)
    ensures final(out)@ == old(out)@ + dim() + l@ + reset() + "\n"@,
{
    push_str(out, DIM);
    push_str(out, l.as_str());
    push_str(out, RESET);
    push_str(out, "\n");
}

/// Lines `a..b` dimmed.
fn push_dim_lines(out: &mut Vec<char>, lines: &[String], a: usize, b: usize)
    requires a <= b <= lines@.len(),
    ensures final(out)@ == old(out)@ + dim_lines(strs(lines@).subrange(a as int, b as int)),
{
    let ghost o = out@;
    let mut k = a;
    assert(strs(lines@).subrange(a as int, a as int) =~= Seq::<Seq<char>>::empty());
    while k < b
        invariant
            a <= k <= b <= lines@.len(),
            out@ == o + dim_lines(strs(lines@).subrange(a as int, k as int)),
        decreases b - k,
    {
        push_dim_line(out, &lines[k]);
        proof {
            let t = strs(lines@).subrange(a as int, k + 1);
            assert(t.drop_last() =~= strs(lines@).subrange(a as int, k as int));
            assert(t.last() == lines@[k as int]@);
        }
        k = k + 1;
    }
}

/// The code lines `a..b` joined with newlines, with a final newline.
fn joined_with_newline(lines: &[String], a: usize, b: usize) -> (r: String)
    requires a < b <= lines@.len(),
    ensures r@ == join_nl(strs(lines@).subrange(a as int, b as int)) + "\n"@,
{
    let mut v: Vec<char> = Vec::new();
    push_str(&mut v, lines[a].as_str());
    let mut k = a + 1;
    assert(strs(lines@).subrange(a as int, a + 1) =~= seq![lines@[a as int]@]);
    while k < b
        invariant
            a < k <= b <= lines@.len(),
            v@ == join_nl(strs(lines@).subrange(a as int, k as int)),
        decreases b - k,
    {
        push_str(&mut v, "\n");
        push_str(&mut v, lines[k].as_str());
        proof {
            let t = strs(lines@).subrange(a as int, k + 1);
            assert(t.drop_last() =~= strs(lines@).subrange(a as int, k as int));
            assert(t.last() == lines@[k as int]@);
        }
        k = k + 1;
    }
    push_str(&mut v, "\n");
    string_from_chars(v.as_slice())
}

/// A fenced code block for the terminal (see `spec_code_block`).
pub fn output_code_block(lines: &[String]) -> (r: String)
    ensures r@ == spec_code_block(strs(lines@)),
{
    let ghost lv = strs(lines@);
    let mut out: Vec<char> = Vec::new();
    if lines.len() == 0 {
        return String::new();
    }
    push_dim_line(&mut out, &lines[0]);
    if lines.len() <= 1 {
        return string_from_chars(out.as_slice());
    }
    let n = lines.len();
    let has_closing = is_fence(lines[n - 1].as_str(), "");
    let end = if has_closing { n - 1 } else { n };
    let ghost content = strs(lines@).subrange(1, end as int);
    assert(content =~= (if has_closing { lv.subrange(1, lv.len() - 1) } else { lv.skip(1) }));
    let first_chars = chars_of(lines[0].as_str());
    let first_trimmed = crate::text::trim_end_chars(first_chars.as_slice());
    let lang = extract_lang(string_from_chars(first_trimmed.as_slice()).as_str());
    let tok = match lang {
        Some(l) => resolve_syntax(l.as_str()),
        None => None,
    };
    match tok {
        Some(t) => {
            if end > 1 {
                let code = joined_with_newline(lines, 1, end);
                let code_chars = chars_of(code.as_str());
                let ps = cut_pieces(&code_chars);
                let theme = light_theme();
                match highlight_lines(t.as_str(), theme, ps.as_slice()) {
                    Some(hs) => push_highlighted(&mut out, &ps, &hs),
                    None => push_dim_lines(&mut out, lines, 1, end),
                }
            }
        },
        None => push_dim_lines(&mut out, lines, 1, end),
    }
    if has_closing {
        push_dim_line(&mut out, &lines[n - 1]);
    }
    assert(lv.last() == lines@[n - 1]@);
    string_from_chars(out.as_slice())
}

/// What the formatter is in the middle of.
#[derive(Debug, Clone, Copy, PartialEq, Eq, Structural)]
pub enum BlockState {
    Normal,
    CodeBlock,
    Table,
}

/// The streaming Markdown formatter: lines come in one by one; code blocks
/// and tables are held until they end, everything else is written at once.
pub struct MdFormatter {
    pub state: BlockState,
    pub code_buf: Vec<String>,
    pub table_buf: Vec<String>,
}

/// The formatter by its parts.
pub struct MdView {
    pub state: BlockState,
    pub code: Seq<Seq<char>>,
    pub table: Seq<Seq<char>>,
}

pub open spec fn md_view(f: MdFormatter) -> MdView {
    MdView { state: f.state, code: strs(f.code_buf@), table: strs(f.table_buf@) }
}

/// A line comes in (its trailing whitespace dropped): the next state and
/// what is written.
pub open spec fn spec_feed(m: MdView, line: Seq<char>) -> (MdView, Seq<char>) {
    let t = crate::text::trim_end(line);
    match m.state {
        BlockState::Normal => if spec_fence_start(t) is Some {
            (MdView { state: BlockState::CodeBlock, code: seq![t], table: m.table }, seq![])
        } else if spec_is_table_row(t) {
            (MdView { state: BlockState::Table, code: m.code, table: seq![t] }, seq![])
        } else {
            (m, spec_format_line(t))
        },
        BlockState::CodeBlock => {
            let code = m.code.push(t);
            if spec_is_fence(t) {
                (MdView { state: BlockState::Normal, code: seq![], table: m.table }, spec_code_block(code))
            } else {
                (MdView { state: BlockState::CodeBlock, code, table: m.table }, seq![])
            }
        },
        BlockState::Table => if t.len() == 0 || !spec_is_table_row(t) {
            (MdView { state: BlockState::Normal, code: m.code, table: seq![] }, spec_output_table(m.table) + spec_format_line(t))
        } else {
            (MdView { state: BlockState::Table, code: m.code, table: m.table.push(t) }, seq![])
        },
    }
}

/// At the end of input: a block still open is written as it is.
pub open spec fn spec_finish(m: MdView) -> Seq<char> {
    (if m.code.len() > 0 { spec_code_block(m.code) } else { seq![] })
        + (if m.table.len() > 0 { spec_output_table(m.table) } else { seq![] })
}

impl MdFormatter {
    pub fn new() -> (r: MdFormatter)
        ensures
            md_view(r).state == BlockState::Normal,
            md_view(r).code.len() == 0,
            md_view(r).table.len() == 0,
    {
        MdFormatter { state: BlockState::Normal, code_buf: Vec::new(), table_buf: Vec::new() }
    }

    /// Takes one input line and gives what to write.
    pub fn feed_line(&mut self, line: &str) -> (r: String)
        ensures
            md_view(*final(self)) == spec_feed(md_view(*old(self)), line@).0,
            r@ == spec_feed(md_view(*old(self)), line@).1,
    {
        let lc = chars_of(line);
        let tc = crate::text::trim_end_chars(lc.as_slice());
        let t = string_from_chars(tc.as_slice());
        match self.state {
            BlockState::Normal => {
                if fence_start(t.as_str()).is_some() {
                    self.state = BlockState::CodeBlock;
                    self.code_buf = Vec::new();
                    self.code_buf.push(t);
                    assert(strs(self.code_buf@) =~= seq![tc@]);
                    String::new()
                } else if is_table_row(t.as_str()) {
                    self.state = BlockState::Table;
                    self.table_buf = Vec::new();
                    self.table_buf.push(t);
                    assert(strs(self.table_buf@) =~= seq![tc@]);
                    String::new()
                } else {
                    format_line(t.as_str())
                }
            },
            BlockState::CodeBlock => {
                let closes = is_fence(t.as_str(), "");
                let ghost before = self.code_buf@;
                self.code_buf.push(t);
                assert(strs(self.code_buf@) =~= strs(before).push(tc@));
                if closes {
                    let out = output_code_block(self.code_buf.as_slice());
                    self.state = BlockState::Normal;
                    self.code_buf = Vec::new();
                    assert(strs(self.code_buf@) =~= Seq::<Seq<char>>::empty());
                    out
                } else {
                    String::new()
                }
            },
            BlockState::Table => {
                if tc.len() == 0 || !is_table_row(t.as_str()) {
                    let table = output_table(self.table_buf.as_slice());
                    self.state = BlockState::Normal;
                    self.table_buf = Vec::new();
                    assert(strs(self.table_buf@) =~= Seq::<Seq<char>>::empty());
                    let f = format_line(t.as_str());
                    table.concat(f.as_str())
                } else {
                    let ghost before = self.table_buf@;
                    self.table_buf.push(t);
                    assert(strs(self.table_buf@) =~= strs(before).push(tc@));
                    String::new()
                }
            },
        }
    }

    /// The end of input: writes any block still open.
    pub fn finish(&self) -> (r: String)
        ensures r@ == spec_finish(md_view(*self)),
    {
        let mut out = String::new();
        if self.code_buf.len() > 0 {
            let c = output_code_block(self.code_buf.as_slice());
            out = out.concat(c.as_str());
        }
        if self.table_buf.len() > 0 {
            let t = output_table(self.table_buf.as_slice());
            out = out.concat(t.as_str());
        }
        assert(out@ =~= spec_finish(md_view(*self)));
        out
    }
}


/// A list item (`- `, `* ` or a digit and `. ` at the start of the line)
/// is the dimmed bullet followed by exactly what `format_inline` gives for
/// the text after the marker: the item's text gets its inline styling.
pub proof fn lemma_list_item_text_is_styled(marker: Seq<char>, t: Seq<char>)
    requires
        marker == "- "@ || marker == "* "@
            || (marker.len() == 3 && is_ascii_digit(marker[0]) && marker[1] == '.' && marker[2] == ' '),
    ensures
        spec_format_line(marker + t) == "  "@ + dim() + "•"@ + reset() + " "@ + spec_format_inline(t),
{
    reveal_strlit("- ");
    reveal_strlit("* ");
    reveal_strlit("### ");
    reveal_strlit("## ");
    reveal_strlit("# ");
    let s = marker + t;
    assert(s[0] == marker[0]);
    assert(!crate::text::is_ws(s[0]));
    assert(crate::text::leading_ws(s) == 0);
    assert(trim_start(s) =~= s);
    assert(!seq_starts_with(s, "### "@));
    assert(!seq_starts_with(s, "## "@));
    assert(!seq_starts_with(s, "# "@));
    if marker == "- "@ || marker == "* "@ {
        assert(s.subrange(0, 2) =~= marker);
        assert(s.skip(2) =~= t);
    } else {
        assert(s[1] == marker[1] && s[2] == marker[2]);
        assert(!seq_starts_with(s, "- "@));
        assert(!seq_starts_with(s, "* "@));
        assert(s.skip(3) =~= t);
    }
}

} // verus!
