//! Capture log (JSONL) lines written by the terminal recorder: detection of
//! text that can be stored as a JSON string, JSON string escaping, the event
//! lines themselves, and the buffer that groups text output into lines.

use vstd::prelude::*;
use vstd::utf8::*;
use base64::Engine;
use crate::text::{
    chars_of, decimal, decimal_chars, extend_all, signed_decimal, signed_decimal_chars,
    slice_to_vec, string_from_chars,
};
use crate::terminal::{is_cc, ESC};

verus! {

broadcast use vstd::seq::group_seq_axioms;

/// Index of the first BEL at or after `j` (or the length).
pub open spec fn bel_from(d: Seq<u8>, j: int) -> int
    decreases d.len() - j,
{
    if j < 0 || j >= d.len() { d.len() as int } else if d[j] == 0x07 { j } else { bel_from(d, j + 1) }
}

/// Whether the bytes from `i` on hold an ANSI escape sequence, scanning as
/// the recorder does: a complete OSC sequence (`ESC ]` ... BEL) is skipped, an
/// unterminated one counts, any `ESC [` counts, `ESC` followed by a byte in
/// `@`..`~` or a control byte counts, and `ESC` at the very end counts; `ESC`
/// followed by any other byte skips both.
pub open spec fn spec_has_ansi(d: Seq<u8>, i: int) -> bool
    decreases d.len() - i,
{
    if i < 0 || i >= d.len() {
        false
    } else if d[i] != ESC {
        spec_has_ansi(d, i + 1)
    } else if i + 1 >= d.len() {
        true
    } else if d[i + 1] == 0x5D {
        let e = bel_from(d, i + 2);
        if e < d.len() && e >= i + 2 { spec_has_ansi(d, e + 1) } else { true }
    } else if d[i + 1] == 0x5B {
        true
    } else if (0x40 <= d[i + 1] && d[i + 1] <= 0x7E) || d[i + 1] < 0x20 {
        true
    } else {
        spec_has_ansi(d, i + 2)
    }
}

/// A character that may stand unescaped-or-simply-escaped in a text record:
/// not a control character, or newline, carriage return or tab.
pub open spec fn is_plain_text_char(c: char) -> bool {
    !is_cc(c) || c == '\n' || c == '\r' || c == '\t'
}

/// Data can be stored as a JSON string: it is valid UTF-8, and it holds an
/// ANSI escape sequence or no control character other than `\n`, `\r`, `\t`.
pub open spec fn spec_json_safe(data: Seq<u8>) -> bool {
    valid_utf8(data) && (spec_has_ansi(data, 0)
        || forall|k: int| 0 <= k < decode_utf8(data).len() ==> is_plain_text_char(#[trigger] decode_utf8(data)[k]))
}

pub proof fn lemma_bel_from_bounds(d: Seq<u8>, j: int)
    requires 0 <= j,
    ensures
        j <= bel_from(d, j) || bel_from(d, j) == d.len(),
        bel_from(d, j) <= d.len(),
        bel_from(d, j) < d.len() ==> d[bel_from(d, j)] == 0x07,
    decreases d.len() - j,
{
    if j < d.len() && d[j] != 0x07 {
        lemma_bel_from_bounds(d, j + 1);
    }
}

/// Whether the data holds an ANSI escape sequence (see `spec_has_ansi`).
pub fn contains_ansi_escape_sequences(data: &[u8]) -> (r: bool)
    ensures r == spec_has_ansi(data@, 0),
{
    let n = data.len();
    let mut i: usize = 0;
    while i < n
        invariant
            n == data@.len(),
            spec_has_ansi(data@, 0) == spec_has_ansi(data@, i as int),
        decreases n - i,
    {
        if data[i] == ESC {
            if i + 1 >= n {
                return true;
            }
            let b = data[i + 1];
            if b == 0x5D {
                let mut j = i + 2;
                while j < n && data[j] != 0x07
                    invariant
                        n == data@.len(),
                        i + 2 <= j <= n,
                        bel_from(data@, j as int) == bel_from(data@, i + 2),
                    decreases n - j,
                {
                    j = j + 1;
                }
                if j < n {
                    i = j + 1;
                    continue;
                }
                return true;
            }
            if b == 0x5B {
                return true;
            }
            if (0x40 <= b && b <= 0x7E) || b < 0x20 {
                return true;
            }
            i = i + 2;
        } else {
            i = i + 1;
        }
    }
    false
}

/// The text of valid UTF-8 bytes (`std::str::from_utf8`, which succeeds
/// exactly on valid UTF-8 and then holds the decoded characters).
#[verifier::external_body]
pub(crate) fn utf8_text(data: &[u8]) -> (r: Option<String>)
    ensures
        r is Some <==> valid_utf8(data@),
        r matches Some(s) ==> s@ == decode_utf8(data@),
{
    std::str::from_utf8(data).ok().map(|s| s.to_string())
}

/// The data as text when it can be stored as a JSON string (see
/// `spec_json_safe`); the flag tells the same.
pub fn check_json_safe_text(data: &[u8]) -> (r: (bool, Option<String>))
    ensures
        r.0 == spec_json_safe(data@),
        r.1 is Some <==> r.0,
        r.1 matches Some(s) ==> s@ == decode_utf8(data@),
{
    match utf8_text(data) {
        Some(s) => {
            if contains_ansi_escape_sequences(data) {
                return (true, Some(s));
            }
            let cs = chars_of(s.as_str());
            let mut k: usize = 0;
            while k < cs.len()
                invariant
                    cs@ == decode_utf8(data@),
                    valid_utf8(data@),
                    !spec_has_ansi(data@, 0),
                    k <= cs@.len(),
                    forall|q: int| 0 <= q < k ==> is_plain_text_char(#[trigger] cs@[q]),
                decreases cs.len() - k,
            {
                let c = cs[k];
                let u = c as u32;
                let control = u <= 0x1F || (0x7F <= u && u <= 0x9F);
                if control && c != '\n' && c != '\r' && c != '\t' {
                    assert(!is_plain_text_char(cs@[k as int]));
                    return (false, None);
                }
                k = k + 1;
            }
            (true, Some(s))
        }
        None => (false, None),
    }
}


/// Lowercase hexadecimal digit.
pub open spec fn hex_digit(d: nat) -> char {
    if d < 10 { crate::text::digit_char(d) }
    else if d == 10 { 'a' } else if d == 11 { 'b' } else if d == 12 { 'c' } else if d == 13 { 'd' }
    else if d == 14 { 'e' } else { 'f' }
}

/// Four lowercase hexadecimal digits of `u` (`{:04x}` for `u < 0x10000`).
pub open spec fn hex4(u: nat) -> Seq<char> {
    seq![hex_digit((u / 4096) % 16), hex_digit((u / 256) % 16), hex_digit((u / 16) % 16), hex_digit(u % 16)]
}

/// The escape of one character used when JSON serialization is unavailable.
pub open spec fn fallback_escape_char(c: char) -> Seq<char> {
    if c == '"' { seq!['\\', '"'] }
    else if c == '\\' { seq!['\\', '\\'] }
    else if c == '\n' { seq!['\\', 'n'] }
    else if c == '\r' { seq!['\\', 'r'] }
    else if c == '\t' { seq!['\\', 't'] }
    else if is_cc(c) { seq!['\\', 'u'] + hex4(c as nat) }
    else { seq![c] }
}

pub open spec fn fallback_escape(s: Seq<char>) -> Seq<char>
    decreases s.len(),
{
    if s.len() == 0 { seq![] } else { fallback_escape(s.drop_last()) + fallback_escape_char(s.last()) }
}

/// How `serde_json` writes one character inside a string literal: `"` and
/// `\` behind a backslash, the control characters below U+0020 as `\b`,
/// `\t`, `\n`, `\f`, `\r` or `\u00XX` (lowercase hexadecimal), every
/// other character as it is.
pub open spec fn json_char_escape(c: char) -> Seq<char> {
    if c == '"' { seq!['\\', '"'] }
    else if c == '\\' { seq!['\\', '\\'] }
    else if c == '\x08' { seq!['\\', 'b'] }
    else if c == '\t' { seq!['\\', 't'] }
    else if c == '\n' { seq!['\\', 'n'] }
    else if c == '\x0c' { seq!['\\', 'f'] }
    else if c == '\r' { seq!['\\', 'r'] }
    else if (c as u32) < 0x20 { seq!['\\', 'u', '0', '0', hex_digit((c as nat) / 16), hex_digit((c as nat) % 16)] }
    else { seq![c] }
}

/// The characters of a string as they stand inside a JSON string literal.
pub open spec fn json_escaped(s: Seq<char>) -> Seq<char>
    decreases s.len(),
{
    if s.len() == 0 { seq![] } else { json_escaped(s.drop_last()) + json_char_escape(s.last()) }
}

/// What `serde_json::to_string` produces for a string: the JSON string
/// literal, quotes included.
pub open spec fn json_string_literal(s: Seq<char>) -> Seq<char> {
    seq!['"'] + json_escaped(s) + seq!['"']
}

/// `serde_json::to_string` of a `&str`: the JSON string literal of `s`
/// (see `json_string_literal`, which follows the escape table of
/// `serde_json`'s serializer). Serializing a string writes into a `Vec<u8>`,
/// which cannot fail, so the result is always `Some`.
#[verifier::external_body]
pub(crate) fn json_quote(s: &str) -> (r: Option<String>)
    ensures
        r is Some,
        r.unwrap()@ == json_string_literal(s@),
{
    serde_json::to_string(s).ok()
}

/// Drops the surrounding quotes of a JSON string literal.
pub open spec fn unquote(q: Seq<char>) -> Seq<char> {
    if q.len() >= 2 && q[0] == '"' && q.last() == '"' { q.subrange(1, q.len() - 1) } else { q }
}

/// The JSON escape of `s` without the surrounding quotes.
pub open spec fn spec_json_escape(s: Seq<char>) -> Seq<char> {
    unquote(json_string_literal(s))
}

fn hex_digit_exec(d: u32) -> (c: char)
    requires d < 16,
    ensures c == hex_digit(d as nat),
{
    if d < 10 {
        let v = decimal_chars(d as u64);
        assert(v@ == seq![crate::text::digit_char(d as nat)]);
        v[0]
    } else if d == 10 { 'a' } else if d == 11 { 'b' } else if d == 12 { 'c' } else if d == 13 { 'd' }
    else if d == 14 { 'e' } else { 'f' }
}

fn push_fallback_escape(out: &mut Vec<char>, c: char)
    ensures final(out)@ == old(out)@ + fallback_escape_char(c),
{
    let u = c as u32;
    if c == '"' { out.push('\\'); out.push('"'); }
    else if c == '\\' { out.push('\\'); out.push('\\'); }
    else if c == '\n' { out.push('\\'); out.push('n'); }
    else if c == '\r' { out.push('\\'); out.push('r'); }
    else if c == '\t' { out.push('\\'); out.push('t'); }
    else if u <= 0x1F || (0x7F <= u && u <= 0x9F) {
        out.push('\\');
        out.push('u');
        out.push(hex_digit_exec((u / 4096) % 16));
        out.push(hex_digit_exec((u / 256) % 16));
        out.push(hex_digit_exec((u / 16) % 16));
        out.push(hex_digit_exec(u % 16));
    } else {
        out.push(c);
    }
    assert(out@ =~= old(out)@ + fallback_escape_char(c));
}

/// JSON-escapes `s` and drops the surrounding quotes (serialization through
/// `serde_json`, with a hand-written escape where serialization fails).
pub fn json_escape(s: &str) -> (r: String)
    ensures r@ == spec_json_escape(s@),
{
    match json_quote(s) {
        Some(q) => {
            let c = chars_of(q.as_str());
            let r = if c.len() >= 2 && c[0] == '"' && c[c.len() - 1] == '"' {
                slice_to_vec(c.as_slice(), 1, c.len() - 1)
            } else {
                c
            };
            let out = string_from_chars(r.as_slice());
            assert(out@ == spec_json_escape(s@));
            out
        }
        None => {
            let cs = chars_of(s);
            let mut out: Vec<char> = Vec::new();
            let mut k: usize = 0;
            while k < cs.len()
                invariant
                    k <= cs@.len(),
                    out@ == fallback_escape(cs@.take(k as int)),
                decreases cs.len() - k,
            {
                push_fallback_escape(&mut out, cs[k]);
                assert(cs@.take(k + 1).drop_last() =~= cs@.take(k as int));
                k = k + 1;
            }
            assert(cs@.take(cs@.len() as int) =~= cs@);
            let r = string_from_chars(out.as_slice());
                        r
        }
    }
}

/// The character of a 6-bit value in the standard base64 alphabet
/// (`A`-`Z`, `a`-`z`, `0`-`9`, `+`, `/`).
pub open spec fn b64_char(v: nat) -> char {
    if v < 26 { (65 + v) as char }
    else if v < 52 { (97 + (v - 26)) as char }
    else if v < 62 { (48 + (v - 52)) as char }
    else if v == 62 { '+' }
    else { '/' }
}

/// Standard base64 (RFC 4648 alphabet, with padding) of the bytes: each
/// group of three bytes becomes four characters of six bits each; a last
/// group of one or two bytes is filled with zero bits and `=`.
pub open spec fn base64_standard(d: Seq<u8>) -> Seq<char>
    decreases d.len(),
{
    if d.len() == 0 {
        seq![]
    } else if d.len() == 1 {
        seq![b64_char(d[0] as nat / 4), b64_char((d[0] as nat % 4) * 16), '=', '=']
    } else if d.len() == 2 {
        seq![b64_char(d[0] as nat / 4), b64_char((d[0] as nat % 4) * 16 + d[1] as nat / 16), b64_char((d[1] as nat % 16) * 4), '=']
    } else {
        seq![b64_char(d[0] as nat / 4), b64_char((d[0] as nat % 4) * 16 + d[1] as nat / 16),
            b64_char((d[1] as nat % 16) * 4 + d[2] as nat / 64), b64_char(d[2] as nat % 64)]
            + base64_standard(d.skip(3))
    }
}

proof fn lemma_b64_char(a: nat, b: nat)
    requires
        a < 64,
        b < 64,
    ensures
        b64_char(a) != '=',
        b64_char(a) == b64_char(b) ==> a == b,
{
}

proof fn lemma_base64_len(d: Seq<u8>)
    ensures
        d.len() == 0 <==> base64_standard(d).len() == 0,
        d.len() > 0 ==> base64_standard(d).len() >= 4,
        d.len() == 1 || d.len() == 2 ==> base64_standard(d).len() == 4 && base64_standard(d)[3] == '=',
        d.len() == 1 ==> base64_standard(d)[2] == '=',
        d.len() >= 2 ==> base64_standard(d)[2] != '=',
        d.len() >= 3 ==> base64_standard(d)[3] != '=',
    decreases d.len(),
{
    if d.len() >= 3 {
        lemma_base64_len(d.skip(3));
        lemma_b64_char((d[1] as nat % 16) * 4 + d[2] as nat / 64, 0);
        lemma_b64_char(d[2] as nat % 64, 0);
    } else if d.len() == 2 {
        lemma_b64_char((d[1] as nat % 16) * 4, 0);
    }
}

/// Different bytes have different standard base64 texts.
pub proof fn lemma_base64_injective(a: Seq<u8>, b: Seq<u8>)
    requires
        base64_standard(a) == base64_standard(b),
    ensures
        a == b,
    decreases a.len(),
{
    lemma_base64_len(a);
    lemma_base64_len(b);
    let ea = base64_standard(a);
    if a.len() == 0 {
        assert(b.len() == 0);
        assert(a =~= b);
    } else {
        assert(b.len() > 0);
        let eb = base64_standard(b);
        let (a0, b0) = (a[0] as nat, b[0] as nat);
        assert(ea[0] == b64_char(a0 / 4) && ea[1] == b64_char((a0 % 4) * 16 + (if a.len() >= 2 { a[1] as nat / 16 } else { 0 })));
        assert(eb[0] == b64_char(b0 / 4) && eb[1] == b64_char((b0 % 4) * 16 + (if b.len() >= 2 { b[1] as nat / 16 } else { 0 })));
        lemma_b64_char(a0 / 4, b0 / 4);
        assert(a0 / 4 == b0 / 4);
        if a.len() == 1 {
            assert(b.len() == 1);
            lemma_b64_char((a0 % 4) * 16, (b0 % 4) * 16);
            assert(a0 == b0);
            assert(a =~= b);
        } else if a.len() == 2 {
            assert(b.len() == 2);
            let (a1, b1) = (a[1] as nat, b[1] as nat);
            assert(ea[2] == b64_char((a1 % 16) * 4) && eb[2] == b64_char((b1 % 16) * 4));
            lemma_b64_char((a0 % 4) * 16 + a1 / 16, (b0 % 4) * 16 + b1 / 16);
            lemma_b64_char((a1 % 16) * 4, (b1 % 16) * 4);
            assert(a0 == b0 && a1 == b1);
            assert(a =~= b);
        } else {
            assert(b.len() >= 3);
            let (a1, b1, a2, b2) = (a[1] as nat, b[1] as nat, a[2] as nat, b[2] as nat);
            assert(ea[2] == b64_char((a1 % 16) * 4 + a2 / 64) && ea[3] == b64_char(a2 % 64));
            assert(eb[2] == b64_char((b1 % 16) * 4 + b2 / 64) && eb[3] == b64_char(b2 % 64));
            lemma_b64_char((a0 % 4) * 16 + a1 / 16, (b0 % 4) * 16 + b1 / 16);
            lemma_b64_char((a1 % 16) * 4 + a2 / 64, (b1 % 16) * 4 + b2 / 64);
            lemma_b64_char(a2 % 64, b2 % 64);
            assert(a0 == b0 && a1 == b1 && a2 == b2);
            let ra = base64_standard(a.skip(3));
            let rb = base64_standard(b.skip(3));
            assert(ra =~= ea.skip(4));
            assert(rb =~= base64_standard(b).skip(4));
            lemma_base64_injective(a.skip(3), b.skip(3));
            assert(a =~= seq![a[0], a[1], a[2]] + a.skip(3));
            assert(b =~= seq![b[0], b[1], b[2]] + b.skip(3));
        }
    }
}

/// `base64::engine::general_purpose::STANDARD.encode` (see `base64_standard`).
#[verifier::external_body]
fn base64_encode(data: &[u8]) -> (r: String)
    ensures r@ == base64_standard(data@),
{
    base64::engine::general_purpose::STANDARD.encode(data)
}


/// Appends the characters of `s`.
pub fn push_str(v: &mut Vec<char>, s: &str)
    ensures final(v)@ == old(v)@ + s@,
{
    let c = chars_of(s);
    extend_all(v, c.as_slice());
}

fn push_signed(v: &mut Vec<char>, n: i64)
    ensures final(v)@ == old(v)@ + signed_decimal(n as int),
{
    let d = signed_decimal_chars(n);
    extend_all(v, d.as_slice());
}

fn push_unsigned(v: &mut Vec<char>, n: u64)
    ensures final(v)@ == old(v)@ + decimal(n as nat),
{
    let d = decimal_chars(n);
    extend_all(v, d.as_slice());
}

/// `"a","b",...` for the arguments, each JSON-escaped.
pub open spec fn argv_json(argv: Seq<Seq<char>>) -> Seq<char>
    decreases argv.len(),
{
    if argv.len() == 0 { seq![] }
    else if argv.len() == 1 { seq!['"'] + spec_json_escape(argv[0]) + seq!['"'] }
    else { argv_json(argv.drop_last()) + seq![','] + seq!['"'] + spec_json_escape(argv.last()) + seq!['"'] }
}

pub open spec fn strings_view(v: Seq<String>) -> Seq<Seq<char>> {
    v.map_values(|s: String| s@)
}

/// The `start` record.
pub open spec fn start_line(t_ms: int, cols: nat, rows: nat, argv: Seq<Seq<char>>, cwd: Seq<char>, pid: int) -> Seq<char> {
    "{\"v\":1,\"t_ms\":"@ + signed_decimal(t_ms) + ",\"type\":\"start\",\"cols\":"@ + decimal(cols)
        + ",\"rows\":"@ + decimal(rows) + ",\"argv\":["@ + argv_json(argv) + "],\"cwd\":\""@
        + spec_json_escape(cwd) + "\",\"pid\":"@ + signed_decimal(pid) + "}\n"@
}

/// A `stdin` or `stdout` record: text as a JSON string when the data can be
/// stored as one, base64 with `"enc":"b64"` otherwise; `n` is the byte count.
pub open spec fn data_line(t_ms: int, kind: Seq<char>, data: Seq<u8>) -> Seq<char> {
    if spec_json_safe(data) {
        "{\"v\":1,\"t_ms\":"@ + signed_decimal(t_ms) + ",\"type\":\""@ + kind + "\",\"n\":"@
            + decimal(data.len()) + ",\"data\":\""@ + spec_json_escape(decode_utf8(data)) + "\"}\n"@
    } else {
        "{\"v\":1,\"t_ms\":"@ + signed_decimal(t_ms) + ",\"type\":\""@ + kind + "\",\"enc\":\"b64\",\"n\":"@
            + decimal(data.len()) + ",\"data\":\""@ + spec_json_escape(base64_standard(data)) + "\"}\n"@
    }
}

/// The `resize` record.
pub open spec fn resize_line(t_ms: int, cols: nat, rows: nat) -> Seq<char> {
    "{\"v\":1,\"t_ms\":"@ + signed_decimal(t_ms) + ",\"type\":\"resize\",\"cols\":"@ + decimal(cols)
        + ",\"rows\":"@ + decimal(rows) + "}\n"@
}

/// The `exit` record of a process that exited with a code.
pub open spec fn exit_code_line(t_ms: int, code: int) -> Seq<char> {
    "{\"v\":1,\"t_ms\":"@ + signed_decimal(t_ms) + ",\"type\":\"exit\",\"how\":\"code\",\"code\":"@
        + signed_decimal(code) + "}\n"@
}

/// The `exit` record of a process killed by a signal.
pub open spec fn exit_signal_line(t_ms: int, signal: int) -> Seq<char> {
    "{\"v\":1,\"t_ms\":"@ + signed_decimal(t_ms) + ",\"type\":\"exit\",\"how\":\"signal\",\"signal\":"@
        + signed_decimal(signal) + "}\n"@
}

fn emit(out: &mut String, line: &Vec<char>)
    ensures final(out)@ == old(out)@ + line@,
{
    let s = string_from_chars(line.as_slice());
    out.append(s.as_str());
}

/// Writes the `start` record (`t_ms` is the time in milliseconds since the epoch).
pub fn write_start(out: &mut String, t_ms: i64, cols: u16, rows: u16, argv: &[String], cwd: &str, pid: i32)
    ensures final(out)@ == old(out)@ + start_line(t_ms as int, cols as nat, rows as nat, strings_view(argv@), cwd@, pid as int),
{
    let mut args: Vec<char> = Vec::new();
    let mut k: usize = 0;
    while k < argv.len()
        invariant
            k <= argv@.len(),
            args@ == argv_json(strings_view(argv@).take(k as int)),
        decreases argv.len() - k,
    {
        if k > 0 {
            args.push(',');
        }
        args.push('"');
        let e = json_escape(argv[k].as_str());
        push_str(&mut args, e.as_str());
        args.push('"');
        proof {
            let t = strings_view(argv@).take(k + 1);
            assert(t.drop_last() =~= strings_view(argv@).take(k as int));
            assert(t.last() == argv@[k as int]@);
            if k == 0 {
                assert(t.len() == 1);
                assert(args@ =~= seq!['"'] + spec_json_escape(t[0]) + seq!['"']);
            } else {
                assert(args@ =~= argv_json(t.drop_last()) + seq![','] + seq!['"'] + spec_json_escape(t.last()) + seq!['"']);
            }
        }
        k = k + 1;
    }
    assert(strings_view(argv@).take(argv@.len() as int) =~= strings_view(argv@));
    let mut v: Vec<char> = Vec::new();
    push_str(&mut v, "{\"v\":1,\"t_ms\":");
    push_signed(&mut v, t_ms);
    push_str(&mut v, ",\"type\":\"start\",\"cols\":");
    push_unsigned(&mut v, cols as u64);
    push_str(&mut v, ",\"rows\":");
    push_unsigned(&mut v, rows as u64);
    push_str(&mut v, ",\"argv\":[");
    extend_all(&mut v, args.as_slice());
    push_str(&mut v, "],\"cwd\":\"");
    let e = json_escape(cwd);
    push_str(&mut v, e.as_str());
    push_str(&mut v, "\",\"pid\":");
    push_signed(&mut v, pid as i64);
    push_str(&mut v, "}\n");
    emit(out, &v);
}

fn write_data(out: &mut String, t_ms: i64, kind: &str, data: &[u8])
    ensures final(out)@ == old(out)@ + data_line(t_ms as int, kind@, data@),
{
    let (_is_safe, text_opt) = check_json_safe_text(data);
    let mut v: Vec<char> = Vec::new();
    push_str(&mut v, "{\"v\":1,\"t_ms\":");
    push_signed(&mut v, t_ms);
    push_str(&mut v, ",\"type\":\"");
    push_str(&mut v, kind);
    match text_opt {
        Some(text) => {
            push_str(&mut v, "\",\"n\":");
            push_unsigned(&mut v, data.len() as u64);
            push_str(&mut v, ",\"data\":\"");
            let e = json_escape(text.as_str());
            push_str(&mut v, e.as_str());
        }
        None => {
            let encoded = base64_encode(data);
            push_str(&mut v, "\",\"enc\":\"b64\",\"n\":");
            push_unsigned(&mut v, data.len() as u64);
            push_str(&mut v, ",\"data\":\"");
            let e = json_escape(encoded.as_str());
            push_str(&mut v, e.as_str());
        }
    }
    push_str(&mut v, "\"}\n");
    emit(out, &v);
}

/// Writes a `stdin` record for the data.
pub fn write_stdin(out: &mut String, t_ms: i64, data: &[u8])
    ensures final(out)@ == old(out)@ + data_line(t_ms as int, "stdin"@, data@),
{
    write_data(out, t_ms, "stdin", data);
}

/// Writes a `stdout` record for the data.
pub fn write_stdout(out: &mut String, t_ms: i64, data: &[u8])
    ensures final(out)@ == old(out)@ + data_line(t_ms as int, "stdout"@, data@),
{
    write_data(out, t_ms, "stdout", data);
}

/// Writes a `resize` record.
pub fn write_resize(out: &mut String, t_ms: i64, cols: u16, rows: u16)
    ensures final(out)@ == old(out)@ + resize_line(t_ms as int, cols as nat, rows as nat),
{
    let mut v: Vec<char> = Vec::new();
    push_str(&mut v, "{\"v\":1,\"t_ms\":");
    push_signed(&mut v, t_ms);
    push_str(&mut v, ",\"type\":\"resize\",\"cols\":");
    push_unsigned(&mut v, cols as u64);
    push_str(&mut v, ",\"rows\":");
    push_unsigned(&mut v, rows as u64);
    push_str(&mut v, "}\n");
    emit(out, &v);
}

/// Writes an `exit` record for an exit code.
pub fn write_exit_code(out: &mut String, t_ms: i64, code: i32)
    ensures final(out)@ == old(out)@ + exit_code_line(t_ms as int, code as int),
{
    let mut v: Vec<char> = Vec::new();
    push_str(&mut v, "{\"v\":1,\"t_ms\":");
    push_signed(&mut v, t_ms);
    push_str(&mut v, ",\"type\":\"exit\",\"how\":\"code\",\"code\":");
    push_signed(&mut v, code as i64);
    push_str(&mut v, "}\n");
    emit(out, &v);
}

/// Writes an `exit` record for a terminating signal.
pub fn write_exit_signal(out: &mut String, t_ms: i64, signal: i32)
    ensures final(out)@ == old(out)@ + exit_signal_line(t_ms as int, signal as int),
{
    let mut v: Vec<char> = Vec::new();
    push_str(&mut v, "{\"v\":1,\"t_ms\":");
    push_signed(&mut v, t_ms);
    push_str(&mut v, ",\"type\":\"exit\",\"how\":\"signal\",\"signal\":");
    push_signed(&mut v, signal as i64);
    push_str(&mut v, "}\n");
    emit(out, &v);
}

/// Index of the first `\n` in `s`, if any.
pub open spec fn first_newline(s: Seq<u8>) -> Option<int>
    decreases s.len(),
{
    if s.len() == 0 { None }
    else if s[0] == 0x0A { Some(0) }
    else { match first_newline(s.drop_first()) { Some(k) => Some(k + 1), None => None } }
}

/// Splits `s` into the complete lines it holds (each ending with its `\n`)
/// and the rest after the last `\n`.
pub open spec fn split_lines(s: Seq<u8>) -> (Seq<Seq<u8>>, Seq<u8>)
    decreases s.len(),
{
    match first_newline(s) {
        Some(p) => if 0 <= p < s.len() {
            let (ls, r) = split_lines(s.skip(p + 1));
            (seq![s.take(p + 1)] + ls, r)
        } else {
            (seq![], s)
        },
        None => (seq![], s),
    }
}

/// All chunks concatenated.
pub open spec fn flatten(cs: Seq<Seq<u8>>) -> Seq<u8>
    decreases cs.len(),
{
    if cs.len() == 0 { seq![] } else { cs[0] + flatten(cs.drop_first()) }
}

pub proof fn lemma_first_newline(s: Seq<u8>, p: int)
    requires
        0 <= p < s.len(),
        s[p] == 0x0A,
        forall|k: int| 0 <= k < p ==> s[k] != 0x0A,
    ensures first_newline(s) == Some(p),
    decreases p,
{
    if p > 0 {
        lemma_first_newline(s.drop_first(), p - 1);
    }
}

pub proof fn lemma_no_newline(s: Seq<u8>)
    requires forall|k: int| 0 <= k < s.len() ==> s[k] != 0x0A,
    ensures first_newline(s) is None,
    decreases s.len(),
{
    if s.len() > 0 {
        lemma_no_newline(s.drop_first());
    }
}

/// Splitting into lines loses and adds nothing.
pub proof fn lemma_split_lines_flatten(s: Seq<u8>)
    ensures ({
        let (ls, r) = split_lines(s);
        flatten(ls) + r == s
    }),
    decreases s.len(),
{
    match first_newline(s) {
        Some(p) => if 0 <= p < s.len() {
            lemma_split_lines_flatten(s.skip(p + 1));
            let (ls, r) = split_lines(s.skip(p + 1));
            let all = seq![s.take(p + 1)] + ls;
            assert(all.drop_first() =~= ls);
            assert(s =~= s.take(p + 1) + s.skip(p + 1));
        },
        None => {},
    }
}

/// A complete line: it ends with its `\n` and holds no other.
pub open spec fn is_line(c: Seq<u8>) -> bool {
    &&& c.len() > 0
    &&& c.last() == 0x0A
    &&& forall|j: int| 0 <= j < c.len() - 1 ==> c[j] != 0x0A
}

/// Splitting into lines gives complete lines and a rest without `\n`.
pub proof fn lemma_split_lines_shape(s: Seq<u8>)
    ensures ({
        let (ls, r) = split_lines(s);
        &&& forall|k: int| 0 <= k < ls.len() ==> #[trigger] is_line(ls[k])
        &&& forall|j: int| 0 <= j < r.len() ==> r[j] != 0x0A
    }),
    decreases s.len(),
{
    lemma_first_newline_is_first(s);
    match first_newline(s) {
        Some(p) => if 0 <= p < s.len() {
            lemma_split_lines_shape(s.skip(p + 1));
            let (ls, r) = split_lines(s.skip(p + 1));
            let all = seq![s.take(p + 1)] + ls;
            assert forall|k: int| 0 <= k < all.len() implies #[trigger] is_line(all[k]) by {
                if k > 0 {
                    assert(all[k] == ls[k - 1]);
                }
            }
        } else {
        },
        None => {},
    }
}

/// `first_newline` finds the first `\n`, and finds none only when there is none.
pub proof fn lemma_first_newline_is_first(s: Seq<u8>)
    ensures
        match first_newline(s) {
            Some(p) => 0 <= p < s.len() && s[p] == 0x0A && forall|j: int| 0 <= j < p ==> s[j] != 0x0A,
            None => forall|j: int| 0 <= j < s.len() ==> s[j] != 0x0A,
        },
    decreases s.len(),
{
    if s.len() > 0 && s[0] != 0x0A {
        lemma_first_newline_is_first(s.drop_first());
        assert forall|j: int| 1 <= j < s.len() implies s[j] == s.drop_first()[j - 1] by {}
    }
}

/// What appending `data` gives, from the bytes held back and the current
/// mode: the chunks returned, the bytes held back after, and the mode
/// after. When nothing is held back the data decides the mode (see
/// `spec_json_safe`); text comes back as the complete lines of what is held
/// back and the data, the rest held back; binary data comes back whole.
pub open spec fn spec_append(pending: Seq<u8>, text_mode: bool, data: Seq<u8>) -> (Seq<Seq<u8>>, Seq<u8>, bool) {
    let text = if pending.len() == 0 { spec_json_safe(data) } else { text_mode };
    if text {
        let (ls, rest) = split_lines(pending + data);
        (ls, rest, true)
    } else {
        (seq![data], Seq::<u8>::empty(), false)
    }
}

/// Appending loses and adds nothing: the chunks returned and the bytes held
/// back after make up the bytes held back before followed by the new data.
/// Text comes back as complete lines (each ends with its one `\n`) and what
/// is held back holds no `\n`; binary data, taken only when nothing is held
/// back, comes back whole with nothing held back.
pub proof fn lemma_append_concatenates(pending: Seq<u8>, text_mode: bool, data: Seq<u8>)
    requires
        text_mode || pending.len() == 0,
    ensures
        ({
            let (ls, rest, mode) = spec_append(pending, text_mode, data);
            &&& flatten(ls) + rest == pending + data
            &&& mode ==> forall|k: int| 0 <= k < ls.len() ==> #[trigger] is_line(ls[k])
            &&& mode ==> forall|j: int| 0 <= j < rest.len() ==> rest[j] != 0x0A
            &&& !mode ==> pending.len() == 0 && ls == seq![data] && rest.len() == 0
        }),
{
    lemma_split_lines_flatten(pending + data);
    lemma_split_lines_shape(pending + data);
    let one = seq![data];
    assert(one.drop_first() =~= Seq::<Seq<u8>>::empty());
    assert(flatten(one) == data + flatten(one.drop_first()));
    assert(flatten(one) =~= data);
    if pending.len() == 0 {
        assert(pending + data =~= data);
    }
}

/// Chunks of text output collected until a line is complete.
pub struct TextBuffer {
    buf: Vec<u8>,
    is_text: bool,
}

impl TextBuffer {
    /// The bytes held back, waiting for the end of their line.
    pub closed spec fn pending(&self) -> Seq<u8> {
        self.buf@
    }

    /// Whether the current run of data is treated as text.
    pub closed spec fn text_mode(&self) -> bool {
        self.is_text
    }

    /// Binary data is never held back.
    pub closed spec fn wf(&self) -> bool {
        !self.is_text ==> self.buf@.len() == 0
    }

    pub fn new() -> (b: Self)
        ensures b.wf(), b.pending() == Seq::<u8>::empty(), b.text_mode(),
    {
        TextBuffer { buf: Vec::new(), is_text: true }
    }

    /// Adds data and returns what is ready to be written. When nothing is
    /// held back, the data decides whether this run is text (see
    /// `spec_json_safe`). Binary data is returned at once as one chunk; text
    /// is held back up to its last `\n` and returned as complete lines.
    pub fn append(&mut self, data: &[u8]) -> (r: Vec<Vec<u8>>)
        requires old(self).wf(),
        ensures
            final(self).wf(),
            ({
                let (ls, rest, mode) = spec_append(old(self).pending(), old(self).text_mode(), data@);
                &&& r@.map_values(|c: Vec<u8>| c@) == ls
                &&& final(self).pending() == rest
                &&& final(self).text_mode() == mode
            }),
            flatten(r@.map_values(|c: Vec<u8>| c@)) + final(self).pending() == old(self).pending() + data@,
            final(self).text_mode() ==> forall|k: int| 0 <= k < r@.len() ==> #[trigger] is_line(r@[k]@),
            forall|j: int| 0 <= j < final(self).pending().len() ==> final(self).pending()[j] != 0x0A,
    {
        let mut result: Vec<Vec<u8>> = Vec::new();
        if self.buf.len() == 0 {
            let (_is_safe, text_opt) = check_json_safe_text(data);
            self.is_text = text_opt.is_some();
        }
        if !self.is_text {
            let chunk = slice_to_vec(data, 0, data.len());
            result.push(chunk);
            proof {
                assert(data@.subrange(0, data@.len() as int) =~= data@);
                let v = result@.map_values(|c: Vec<u8>| c@);
                assert(v =~= seq![data@]);
                assert(v.drop_first() =~= Seq::<Seq<u8>>::empty());
                assert(old(self).pending() + data@ =~= data@);
                assert(flatten(v.drop_first()) == Seq::<u8>::empty());
                assert(flatten(v) == v[0] + flatten(v.drop_first()));
                assert(flatten(v) =~= data@);
            }
            return result;
        }
        let ghost all = self.buf@ + data@;
        crate::text::extend_all(&mut self.buf, data);
        loop
            invariant
                self.is_text,
                ({
                    let (ls, rest) = split_lines(self.buf@);
                    let (ls0, rest0) = split_lines(all);
                    result@.map_values(|c: Vec<u8>| c@) + ls == ls0 && rest == rest0
                }),
            ensures
                self.is_text,
                first_newline(self.buf@) is None,
                ({
                    let (ls, rest) = split_lines(self.buf@);
                    let (ls0, rest0) = split_lines(all);
                    result@.map_values(|c: Vec<u8>| c@) + ls == ls0 && rest == rest0
                }),
            decreases self.buf@.len(),
        {
            let mut pos: usize = 0;
            while pos < self.buf.len() && self.buf[pos] != 0x0A
                invariant
                    pos <= self.buf@.len(),
                    forall|k: int| 0 <= k < pos ==> self.buf@[k] != 0x0A,
                decreases self.buf@.len() - pos,
            {
                pos = pos + 1;
            }
            if pos == self.buf.len() {
                proof { lemma_no_newline(self.buf@); }
                break;
            }
            proof { lemma_first_newline(self.buf@, pos as int); }
            let ghost b = self.buf@;
            let rest = self.buf.split_off(pos + 1);
            let mut line = rest;
            std::mem::swap(&mut line, &mut self.buf);
            proof {
                assert(line@ =~= b.take(pos + 1));
                assert(self.buf@ =~= b.skip(pos + 1));
            }
            let ghost before = result@.map_values(|c: Vec<u8>| c@);
            result.push(line);
            proof {
                let (ls, r) = split_lines(self.buf@);
                assert(result@.map_values(|c: Vec<u8>| c@) =~= before.push(b.take(pos + 1)));
                assert(before.push(b.take(pos + 1)) + ls =~= before + (seq![b.take(pos + 1)] + ls));
            }
        }
        proof {
            lemma_split_lines_flatten(all);
            lemma_split_lines_shape(all);
            let v = result@.map_values(|c: Vec<u8>| c@);
            assert forall|k: int| 0 <= k < result@.len() implies #[trigger] is_line(result@[k]@) by {
                assert(v[k] == result@[k]@);
            }
            assert(split_lines(self.buf@).0 =~= Seq::<Seq<u8>>::empty());
            assert(result@.map_values(|c: Vec<u8>| c@) + Seq::<Seq<u8>>::empty() =~= result@.map_values(|c: Vec<u8>| c@));
        }
        result
    }

    /// Returns what is held back (at the end of input, for instance), or
    /// `None` when nothing is.
    pub fn flush(&mut self) -> (r: Option<Vec<u8>>)
        requires old(self).wf(),
        ensures
            final(self).wf(),
            final(self).pending() == Seq::<u8>::empty(),
            final(self).text_mode() == old(self).text_mode(),
            match r {
                Some(d) => d@ == old(self).pending() && d@.len() > 0,
                None => old(self).pending().len() == 0,
            },
    {
        if self.buf.len() == 0 {
            None
        } else {
            let mut data: Vec<u8> = Vec::new();
            std::mem::swap(&mut data, &mut self.buf);
            Some(data)
        }
    }
}

/// Valid UTF-8 whose only control characters are newline, carriage return
/// and tab is stored as text: it is JSON-safe, and a text buffer that holds
/// nothing back takes it as text.
pub proof fn lemma_line_controls_are_text(data: Seq<u8>)
    requires
        valid_utf8(data),
        forall|k: int| 0 <= k < decode_utf8(data).len() ==> {
            let c = #[trigger] decode_utf8(data)[k];
            is_cc(c) ==> c == '\n' || c == '\r' || c == '\t'
        },
    ensures
        spec_json_safe(data),
        spec_append(Seq::<u8>::empty(), false, data).2,
        spec_append(Seq::<u8>::empty(), true, data).2,
{
}

} // verus!
