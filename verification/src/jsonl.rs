//! A light JSONL reader for capture logs: it picks the string values of the
//! `"type"`, `"data"` and `"enc"` keys out of a line without a full JSON
//! parser, unescaping `data`.
//!
//! The reader works on the line's UTF-8 bytes and compares keys by slicing
//! the line at byte offsets. `parse_line` asks that no slice it takes cuts
//! a multi-byte character; `try_parse_line` checks that first and gives
//! `None` for a line where one would.

use vstd::prelude::*;
use vstd::utf8::*;
use vstd::string::*;
use crate::text::{has_at_bytes, occurs_at, slice_to_vec, string_from_chars};
use crate::logfmt::utf8_text;

verus! {

broadcast use vstd::seq::group_seq_axioms;

pub open spec fn key_type() -> Seq<u8> { seq![0x22, 0x74, 0x79, 0x70, 0x65, 0x22] }

pub open spec fn key_data() -> Seq<u8> { seq![0x22, 0x64, 0x61, 0x74, 0x61, 0x22] }

pub open spec fn key_enc() -> Seq<u8> { seq![0x22, 0x65, 0x6E, 0x63, 0x22] }

/// Past any spaces and colons from `j`.
pub open spec fn skip_sep(b: Seq<u8>, j: int) -> int
    decreases b.len() - j,
{
    if 0 <= j < b.len() && (b[j] == 0x20 || b[j] == 0x3A) { skip_sep(b, j + 1) } else { j }
}

/// Index of the closing quote of a string body starting at `j` (a backslash
/// skips the next byte), or the length when there is none.
pub open spec fn str_end(b: Seq<u8>, j: int) -> int
    decreases b.len() - j,
{
    if j < 0 || j >= b.len() { j }
    else if b[j] == 0x22 { j }
    else if b[j] == 0x5C && j + 1 < b.len() { str_end(b, j + 2) }
    else { str_end(b, j + 1) }
}

/// The raw string value after a key that ends at `k`, and where scanning resumes.
pub open spec fn raw_field(b: Seq<u8>, k: int) -> (Option<Seq<u8>>, int) {
    let j = skip_sep(b, k);
    if 0 <= j < b.len() && b[j] == 0x22 {
        let e = str_end(b, j + 1);
        if e < b.len() { (Some(b.subrange(j + 1, e)), e + 1) } else { (None, e) }
    } else {
        (None, j)
    }
}

pub open spec fn is_hex_byte(x: u8) -> bool {
    (0x30 <= x <= 0x39) || (0x41 <= x <= 0x46) || (0x61 <= x <= 0x66)
}

pub open spec fn hex_byte_value(x: u8) -> nat {
    if x <= 0x39 { (x - 0x30) as nat } else if x <= 0x46 { (x - 0x41 + 10) as nat } else { (x - 0x61 + 10) as nat }
}

pub open spec fn hex_fold(d: Seq<u8>) -> nat
    decreases d.len(),
{
    if d.len() == 0 { 0 } else { hex_fold(d.drop_last()) * 16 + hex_byte_value(d.last()) }
}

/// `u32::from_str_radix(_, 16)` on up to four bytes taken as characters:
/// an optional leading `+`, then one or more hexadecimal digits.
pub open spec fn hex_value(h: Seq<u8>) -> Option<nat> {
    let d = hex_digits(h);
    if d.len() > 0 && all_hex(d) {
        Some(hex_fold(d))
    } else {
        None
    }
}

/// The digits of a `from_str_radix` argument: without one leading `+`.
pub open spec fn hex_digits(h: Seq<u8>) -> Seq<u8> {
    if h.len() > 0 && h[0] == 0x2B { h.drop_first() } else { h }
}

pub open spec fn all_hex(d: Seq<u8>) -> bool {
    forall|k: int| 0 <= k < d.len() ==> is_hex_byte(#[trigger] d[k])
}

pub open spec fn min_int(a: int, b: int) -> int { if a < b { a } else { b } }

/// The character a simple escape `\x` stands for, if `x` is one.
pub open spec fn simple_escape(x: u8) -> Option<char> {
    if x == 0x22 { Some('"') }
    else if x == 0x5C { Some('\\') }
    else if x == 0x2F { Some('/') }
    else if x == 0x62 { Some('\x08') }
    else if x == 0x66 { Some('\x0c') }
    else if x == 0x6E { Some('\n') }
    else if x == 0x72 { Some('\r') }
    else if x == 0x74 { Some('\t') }
    else { None }
}

/// Unescapes a string body from `j`, each plain byte read as the character of
/// the same number; returns the text and the index of the closing quote (or
/// the length when there is none).
pub open spec fn data_scan(b: Seq<u8>, j: int, acc: Seq<char>) -> (Seq<char>, int)
    decreases b.len() - j,
{
    if j < 0 || j >= b.len() {
        (acc, j)
    } else if b[j] == 0x5C && j + 1 < b.len() {
        let x = b[j + 1];
        match simple_escape(x) {
            Some(c) => data_scan(b, j + 2, acc.push(c)),
            None => if x == 0x75 {
                let h0 = j + 2;
                let h1 = min_int(h0 + 4, b.len() as int);
                let acc2 = match hex_value(b.subrange(h0, h1)) {
                    Some(v) => if is_scalar(v as u32) && v <= 0xFFFF { acc.push((v as u32) as char) } else { acc },
                    None => acc,
                };
                data_scan(b, h1, acc2)
            } else {
                data_scan(b, j + 2, acc.push('\\').push(x as char))
            },
        }
    } else if b[j] == 0x22 {
        (acc, j)
    } else {
        data_scan(b, j + 1, acc.push(b[j] as char))
    }
}

/// The unescaped `data` value after a key ending at `k`, and where scanning resumes.
pub open spec fn data_field(b: Seq<u8>, k: int) -> (Option<Seq<char>>, int) {
    let j = skip_sep(b, k);
    if 0 <= j < b.len() && b[j] == 0x22 {
        let (text, e) = data_scan(b, j + 1, seq![]);
        if 0 <= e < b.len() { (Some(text), e + 1) } else { (None, e) }
    } else {
        (None, j)
    }
}

/// Values found so far: type (bytes), data (text), enc (bytes).
pub struct Found {
    pub ty: Option<Seq<u8>>,
    pub data: Option<Seq<char>>,
    pub enc: Option<Seq<u8>>,
}

pub open spec fn is_key_at(b: Seq<u8>, i: int, key: Seq<u8>) -> bool {
    i + key.len() < b.len() && occurs_at(b, key, i)
}

/// Scans the line's bytes from `i`; a later occurrence of a key replaces an earlier value.
pub open spec fn scan(b: Seq<u8>, i: int, f: Found) -> Found
    decreases b.len() - i,
{
    if i < 0 || i >= b.len() {
        f
    } else if is_key_at(b, i, key_type()) {
        let (v, k) = raw_field(b, i + 6);
        let f2 = if v is Some { Found { ty: v, ..f } } else { f };
        if k <= i || k > b.len() { f2 } else { scan(b, k, f2) }
    } else if is_key_at(b, i, key_data()) {
        let (v, k) = data_field(b, i + 6);
        let f2 = if v is Some { Found { data: v, ..f } } else { f };
        if k <= i || k > b.len() { f2 } else { scan(b, k, f2) }
    } else if is_key_at(b, i, key_enc()) {
        let (v, k) = raw_field(b, i + 5);
        let f2 = if v is Some { Found { enc: v, ..f } } else { f };
        if k <= i || k > b.len() { f2 } else { scan(b, k, f2) }
    } else {
        scan(b, i + 1, f)
    }
}

/// A key comparison at `i` slices the line on character boundaries.
pub open spec fn boundary_ok(b: Seq<u8>, i: int, n: int) -> bool {
    i + n < b.len() ==> !is_continuation_byte(b[i]) && !is_continuation_byte(b[i + n])
}

/// No key comparison of the scan from `i` slices inside a character.
pub open spec fn scan_ok(b: Seq<u8>, i: int, f: Found) -> bool
    decreases b.len() - i,
{
    if i < 0 || i >= b.len() {
        true
    } else if !boundary_ok(b, i, 6) {
        false
    } else if is_key_at(b, i, key_type()) {
        let (v, k) = raw_field(b, i + 6);
        let f2 = if v is Some { Found { ty: v, ..f } } else { f };
        k <= i || k > b.len() || scan_ok(b, k, f2)
    } else if is_key_at(b, i, key_data()) {
        let (v, k) = data_field(b, i + 6);
        let f2 = if v is Some { Found { data: v, ..f } } else { f };
        k <= i || k > b.len() || scan_ok(b, k, f2)
    } else if !boundary_ok(b, i, 5) {
        false
    } else if is_key_at(b, i, key_enc()) {
        let (v, k) = raw_field(b, i + 5);
        let f2 = if v is Some { Found { enc: v, ..f } } else { f };
        k <= i || k > b.len() || scan_ok(b, k, f2)
    } else {
        scan_ok(b, i + 1, f)
    }
}

pub open spec fn no_found() -> Found {
    Found { ty: None, data: None, enc: None }
}

pub open spec fn opt_text(v: Option<Seq<u8>>) -> Option<Seq<char>> {
    match v { Some(x) => Some(decode_utf8(x)), None => None }
}

/// The `(type, data, enc)` of a line, present when a `type` value was found.
pub open spec fn spec_parse_line(line: Seq<char>) -> Option<(Seq<char>, Option<Seq<char>>, Option<Seq<char>>)> {
    let f = scan(encode_utf8(line), 0, no_found());
    match f.ty {
        Some(t) => Some((decode_utf8(t), f.data, opt_text(f.enc))),
        None => None,
    }
}

pub open spec fn opt_view(v: Option<String>) -> Option<Seq<char>> {
    match v { Some(s) => Some(s@), None => None }
}


/// In valid UTF-8 the byte after an ASCII byte starts a character.
pub proof fn lemma_after_ascii(b: Seq<u8>, k: int)
    requires
        valid_utf8(b),
        0 <= k,
        k + 1 < b.len(),
        b[k] < 0x80,
    ensures
        !is_continuation_byte(b[k + 1]),
    decreases b.len(),
{
    assert(valid_first_scalar(b) && valid_utf8(pop_first_scalar(b)));
    let w = length_of_first_scalar(b);
    let rest = pop_first_scalar(b);
    if k < w {
        assert(k == 0 && w == 1) by {
            if k > 0 {
                assert(is_continuation_byte(b[k]));
            }
            if w > 1 {
                assert(b[0] >= 0xc0);
            }
        }
        assert(rest[0] == b[1]);
        assert(valid_first_scalar(rest));
    } else {
        assert(rest[k - w] == b[k]);
        assert(rest[k - w + 1] == b[k + 1]);
        lemma_after_ascii(rest, k - w);
    }
}

/// Bytes strictly between a `"` at `j` and a `"` at `e` of valid UTF-8 are valid UTF-8.
pub proof fn lemma_quoted_valid(b: Seq<u8>, j: int, e: int)
    requires
        valid_utf8(b),
        0 <= j < e < b.len(),
        b[j] == 0x22,
        b[e] == 0x22,
    ensures
        valid_utf8(b.subrange(j + 1, e)),
{
    if j + 1 < b.len() {
        lemma_after_ascii(b, j);
    }
    is_char_boundary_iff_not_is_continuation_byte(b, j + 1);
    valid_utf8_split(b, j + 1);
    let r = b.subrange(j + 1, b.len() as int);
    is_char_boundary_iff_not_is_continuation_byte(r, e - (j + 1));
    assert(r[e - (j + 1)] == 0x22);
    valid_utf8_split(r, e - (j + 1));
    assert(r.subrange(0, e - (j + 1)) =~= b.subrange(j + 1, e));
}

fn skip_sep_exec(b: &[u8], k: usize) -> (r: usize)
    requires k <= b@.len(),
    ensures r == skip_sep(b@, k as int), k <= r <= b@.len(),
{
    let mut j = k;
    while j < b.len() && (b[j] == 0x20 || b[j] == 0x3A)
        invariant
            k <= j <= b@.len(),
            skip_sep(b@, j as int) == skip_sep(b@, k as int),
        decreases b.len() - j,
    {
        j = j + 1;
    }
    j
}

fn str_end_exec(b: &[u8], k: usize) -> (r: usize)
    requires k <= b@.len(),
    ensures
        r == str_end(b@, k as int),
        k <= r <= b@.len(),
        r < b@.len() ==> b@[r as int] == 0x22,
{
    let mut j = k;
    while j < b.len() && b[j] != 0x22
        invariant
            k <= j <= b@.len(),
            str_end(b@, j as int) == str_end(b@, k as int),
        decreases b.len() - j,
    {
        if b[j] == 0x5C && j + 1 < b.len() {
            j = j + 2;
        } else {
            j = j + 1;
        }
    }
    j
}

/// The byte range of a raw string value after a key ending at `k`.
fn raw_field_exec(b: &[u8], k: usize) -> (r: (Option<(usize, usize)>, usize))
    requires k <= b@.len(),
    ensures
        r.1 == raw_field(b@, k as int).1,
        k <= r.1 <= b@.len(),
        match r.0 {
            Some((x, y)) => raw_field(b@, k as int).0 == Some(b@.subrange(x as int, y as int))
                && 0 < x <= y < b@.len() && b@[x - 1] == 0x22 && b@[y as int] == 0x22,
            None => raw_field(b@, k as int).0 is None,
        },
{
    let j = skip_sep_exec(b, k);
    if j < b.len() && b[j] == 0x22 {
        let e = str_end_exec(b, j + 1);
        if e < b.len() {
            assert(b@[j as int] == 0x22);
            (Some((j + 1, e)), e + 1)
        } else {
            (None, e)
        }
    } else {
        (None, j)
    }
}

fn hex_value_exec(b: &[u8], h0: usize, h1: usize) -> (r: Option<u32>)
    requires h0 <= h1 <= b@.len(), h1 - h0 <= 4,
    ensures
        match hex_value(b@.subrange(h0 as int, h1 as int)) {
            Some(v) => r == Some(v as u32) && v <= 0xFFFF,
            None => r is None,
        },
{
    let ghost h = b@.subrange(h0 as int, h1 as int);
    let mut a = h0;
    if h1 > h0 && b[h0] == 0x2B {
        a = h0 + 1;
    }
    let ghost d = b@.subrange(a as int, h1 as int);
    assert(d =~= hex_digits(h));
    if a == h1 {
        assert(d.len() == 0);
        return None;
    }
    let mut v: u32 = 0;
    let mut k = a;
    while k < h1
        invariant
            a <= k <= h1 <= b@.len(),
            h1 - a <= 4,
            d == b@.subrange(a as int, h1 as int),
            h == b@.subrange(h0 as int, h1 as int),
            d == hex_digits(h),
            forall|q: int| a <= q < k ==> is_hex_byte(#[trigger] b@[q]),
            v as nat == hex_fold(b@.subrange(a as int, k as int)),
            v < pow16(k - a),
        decreases h1 - k,
    {
        let x = b[k];
        let dv: u32 = if 0x30 <= x && x <= 0x39 {
            (x - 0x30) as u32
        } else if 0x41 <= x && x <= 0x46 {
            (x - 0x41 + 10) as u32
        } else if 0x61 <= x && x <= 0x66 {
            (x - 0x61 + 10) as u32
        } else {
            proof {
                assert(d[k - a] == x);
                assert(!is_hex_byte(d[k - a]));
            }
            return None;
        };
        proof {
            let s2 = b@.subrange(a as int, k + 1);
            assert(s2.drop_last() =~= b@.subrange(a as int, k as int));
            assert(s2.last() == x);
            lemma_pow16_step(k - a);
        }
        v = v * 16 + dv;
        k = k + 1;
    }
    proof {
        assert(d =~= b@.subrange(a as int, h1 as int));
        assert forall|q: int| 0 <= q < d.len() implies is_hex_byte(#[trigger] d[q]) by {
            assert(d[q] == b@[a + q]);
        }
        lemma_pow16_le(h1 - a);
    }
    Some(v)
}

pub open spec fn pow16(n: int) -> int
    decreases n,
{
    if n <= 0 { 1 } else { 16 * pow16(n - 1) }
}

proof fn lemma_pow16_step(n: int)
    requires 0 <= n < 4,
    ensures pow16(n + 1) == 16 * pow16(n), pow16(n + 1) <= 65536,
{
    reveal_with_fuel(pow16, 5);
}

proof fn lemma_pow16_le(n: int)
    requires 0 <= n <= 4,
    ensures pow16(n) <= 65536,
{
    reveal_with_fuel(pow16, 5);
}

/// `char::from_u32`, which yields a character for every Unicode scalar value.
#[verifier::external_body]
pub(crate) fn char_from_u32(u: u32) -> (c: Option<char>)
    ensures
        c is Some <==> is_scalar(u),
        c matches Some(x) ==> x == u as char,
{
    char::from_u32(u)
}

/// The unescaped `data` value after a key ending at `k`.
fn data_field_exec(b: &[u8], k: usize) -> (r: (Option<Vec<char>>, usize))
    requires k <= b@.len(),
    ensures
        r.1 == data_field(b@, k as int).1,
        k <= r.1 <= b@.len(),
        match r.0 {
            Some(t) => data_field(b@, k as int).0 == Some(t@),
            None => data_field(b@, k as int).0 is None,
        },
{
    let j0 = skip_sep_exec(b, k);
    if !(j0 < b.len() && b[j0] == 0x22) {
        return (None, j0);
    }
    let mut acc: Vec<char> = Vec::new();
    let mut j = j0 + 1;
    while j < b.len() && b[j] != 0x22
        invariant
            j0 + 1 <= j <= b@.len(),
            data_scan(b@, j as int, acc@) == data_scan(b@, j0 + 1, seq![]),
        decreases b.len() - j,
    {
        let x = b[j];
        if x == 0x5C && j + 1 < b.len() {
            let y = b[j + 1];
            if y == 0x22 { acc.push('"'); j = j + 2; }
            else if y == 0x5C { acc.push('\\'); j = j + 2; }
            else if y == 0x2F { acc.push('/'); j = j + 2; }
            else if y == 0x62 { acc.push('\x08'); j = j + 2; }
            else if y == 0x66 { acc.push('\x0c'); j = j + 2; }
            else if y == 0x6E { acc.push('\n'); j = j + 2; }
            else if y == 0x72 { acc.push('\r'); j = j + 2; }
            else if y == 0x74 { acc.push('\t'); j = j + 2; }
            else if y == 0x75 {
                let h0 = j + 2;
                let h1 = if b.len() - h0 > 4 { h0 + 4 } else { b.len() };
                match hex_value_exec(b, h0, h1) {
                    Some(v) => match char_from_u32(v) {
                        Some(c) => acc.push(c),
                        None => {},
                    },
                    None => {},
                }
                j = h1;
            } else {
                acc.push('\\');
                acc.push(y as char);
                j = j + 2;
            }
        } else {
            acc.push(x as char);
            j = j + 1;
        }
    }
    if j < b.len() {
        (Some(acc), j + 1)
    } else {
        (None, j)
    }
}

/// A value's bytes lie strictly between two quotes of the line.
pub open spec fn quoted(b: Seq<u8>, x: int, y: int) -> bool {
    0 < x <= y < b.len() && b[x - 1] == 0x22 && b[y] == 0x22
}

/// The executable scan state holds the values of `f`.
pub open spec fn state_matches(
    b: Seq<u8>,
    f: Found,
    ty: Option<(usize, usize)>,
    data: Option<Vec<char>>,
    enc: Option<(usize, usize)>,
) -> bool {
    &&& match ty {
        Some((x, y)) => f.ty == Some(b.subrange(x as int, y as int)) && quoted(b, x as int, y as int),
        None => f.ty is None,
    }
    &&& match data {
        Some(d) => f.data == Some(d@),
        None => f.data is None,
    }
    &&& match enc {
        Some((x, y)) => f.enc == Some(b.subrange(x as int, y as int)) && quoted(b, x as int, y as int),
        None => f.enc is None,
    }
}

pub open spec fn triple_view(v: (String, Option<String>, Option<String>)) -> (Seq<char>, Option<Seq<char>>, Option<Seq<char>>) {
    (v.0@, opt_view(v.1), opt_view(v.2))
}

pub open spec fn parsed_view(r: Option<(String, Option<String>, Option<String>)>) -> Option<(Seq<char>, Option<Seq<char>>, Option<Seq<char>>)> {
    match r {
        Some(v) => Some(triple_view(v)),
        None => None,
    }
}

/// The text of a quoted value of valid UTF-8 bytes.
fn quoted_text(b: &[u8], x: usize, y: usize) -> (s: String)
    requires
        valid_utf8(b@),
        quoted(b@, x as int, y as int),
    ensures
        s@ == decode_utf8(b@.subrange(x as int, y as int)),
{
    proof {
        lemma_quoted_valid(b@, x - 1, y as int);
    }
    let v = slice_to_vec(b, x, y);
    match utf8_text(v.as_slice()) {
        Some(s) => s,
        None => String::new(),
    }
}

/// Whether byte `x` continues a multi-byte character.
fn is_continuation(x: u8) -> (r: bool)
    ensures r == is_continuation_byte(x),
{
    0x80 <= x && x <= 0xbf
}

/// Reads the `type`, `data` and `enc` string values of a capture-log line,
/// as the line-oriented reader does: `Some(Some(..))` when a `type` value was
/// found, `Some(None)` when none was, and `None` when one of the reader's key
/// comparisons would cut the line inside a character.
pub fn try_parse_line(line: &str) -> (r: Option<Option<(String, Option<String>, Option<String>)>>)
    ensures
        r is Some <==> scan_ok(encode_utf8(line@), 0, no_found()),
        r matches Some(v) ==> parsed_view(v) == spec_parse_line(line@),
{
    let b = line.as_bytes();
    proof {
        encode_utf8_valid_utf8(line@);
    }
    let kt: Vec<u8> = vec![0x22u8, 0x74u8, 0x79u8, 0x70u8, 0x65u8, 0x22u8];
    let kd: Vec<u8> = vec![0x22u8, 0x64u8, 0x61u8, 0x74u8, 0x61u8, 0x22u8];
    let ke: Vec<u8> = vec![0x22u8, 0x65u8, 0x6Eu8, 0x63u8, 0x22u8];
    assert(kt@ == key_type());
    assert(kd@ == key_data());
    assert(ke@ == key_enc());
    let mut ty: Option<(usize, usize)> = None;
    let mut data: Option<Vec<char>> = None;
    let mut enc: Option<(usize, usize)> = None;
    let ghost mut f = no_found();
    let mut i: usize = 0;
    while i < b.len()
        invariant
            i <= b@.len(),
            b@ == encode_utf8(line@),
            valid_utf8(b@),
            kt@ == key_type(),
            kd@ == key_data(),
            ke@ == key_enc(),
            scan(b@, i as int, f) == scan(b@, 0, no_found()),
            scan_ok(b@, i as int, f) == scan_ok(b@, 0, no_found()),
            state_matches(b@, f, ty, data, enc),
        decreases b.len() - i,
    {
        if b.len() - i > 6 && (is_continuation(b[i]) || is_continuation(b[i + 6])) {
            return None;
        }
        if b.len() - i > 6 && has_at_bytes(b, i, kt.as_slice()) {
            let (v, k) = raw_field_exec(b, i + 6);
            if let Some((x, y)) = v {
                ty = Some((x, y));
                proof { f = Found { ty: Some(b@.subrange(x as int, y as int)), ..f }; }
            }
            i = k;
        } else if b.len() - i > 6 && has_at_bytes(b, i, kd.as_slice()) {
            let (v, k) = data_field_exec(b, i + 6);
            if let Some(t) = v {
                proof { f = Found { data: Some(t@), ..f }; }
                data = Some(t);
            }
            i = k;
        } else {
            if b.len() - i > 5 && (is_continuation(b[i]) || is_continuation(b[i + 5])) {
                return None;
            }
            if b.len() - i > 5 && has_at_bytes(b, i, ke.as_slice()) {
                let (v, k) = raw_field_exec(b, i + 5);
                if let Some((x, y)) = v {
                    enc = Some((x, y));
                    proof { f = Found { enc: Some(b@.subrange(x as int, y as int)), ..f }; }
                }
                i = k;
            } else {
                i = i + 1;
            }
        }
    }
    assert(scan(b@, i as int, f) == f);
    match ty {
        Some((x, y)) => {
            let t = quoted_text(b, x, y);
            let d = match data {
                Some(cs) => Some(string_from_chars(cs.as_slice())),
                None => None,
            };
            let e = match enc {
                Some((x2, y2)) => Some(quoted_text(b, x2, y2)),
                None => None,
            };
            Some(Some((t, d, e)))
        }
        None => Some(None),
    }
}

/// Reads the `type`, `data` and `enc` string values of a capture-log line;
/// `None` when the line has no `type` string value.
pub fn parse_line(line: &str) -> (r: Option<(String, Option<String>, Option<String>)>)
    requires
        scan_ok(encode_utf8(line@), 0, no_found()),
    ensures
        parsed_view(r) == spec_parse_line(line@),
{
    match try_parse_line(line) {
        Some(v) => v,
        None => None,
    }
}

} // verus!
