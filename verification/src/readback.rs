//! Reading back what the capture-log writer wrote: a `stdout` record of
//! ASCII data, read by the line-oriented reader, gives the record's type,
//! its payload and its encoding.

use vstd::prelude::*;
use vstd::utf8::*;
use vstd::string::*;
use crate::jsonl::{
    all_hex, data_field, data_scan, hex_byte_value, hex_digits, hex_fold, hex_value, is_hex_byte, is_key_at,
    key_data, key_enc, key_type, min_int, no_found, raw_field, scan, scan_ok, skip_sep, spec_parse_line, str_end,
    Found,
};
use crate::logfmt::{
    base64_standard, data_line, hex_digit, json_char_escape, json_escaped, json_string_literal, spec_json_escape,
    spec_json_safe,
};
use crate::text::{decimal, signed_decimal};

verus! {

/// Every character is ASCII.
pub open spec fn ascii(s: Seq<char>) -> bool {
    forall|k: int| 0 <= k < s.len() ==> (#[trigger] s[k] as u32) < 0x80
}

/// Every byte is ASCII.
pub open spec fn ascii_bytes(d: Seq<u8>) -> bool {
    forall|k: int| 0 <= k < d.len() ==> #[trigger] d[k] < 0x80
}

/// The UTF-8 of ASCII text is its characters' numbers, one byte each.
proof fn lemma_encode_ascii(s: Seq<char>)
    requires
        ascii(s),
    ensures
        encode_utf8(s).len() == s.len(),
        forall|k: int| 0 <= k < s.len() ==> #[trigger] encode_utf8(s)[k] == (s[k] as u32) as u8,
    decreases s.len(),
{
    if s.len() > 0 {
        let t = s.drop_first();
        assert forall|k: int| 0 <= k < t.len() implies (#[trigger] t[k] as u32) < 0x80 by {
            assert(t[k] == s[k + 1]);
        }
        lemma_encode_ascii(t);
        let c = s[0] as u32;
        assert(c < 0x80);
        assert((c & 0x7F) as u8 == c as u8) by (bit_vector)
            requires
                c < 0x80,
        ;
        assert forall|k: int| 0 <= k < s.len() implies #[trigger] encode_utf8(s)[k] == (s[k] as u32) as u8 by {
            if k > 0 {
                assert(t[k - 1] == s[k]);
            }
        }
    }
}

/// ASCII bytes are valid UTF-8 and decode to the characters of the same numbers.
proof fn lemma_decode_ascii(d: Seq<u8>)
    requires
        ascii_bytes(d),
    ensures
        decode_utf8(d) == d.map_values(|x: u8| x as char),
        ascii(decode_utf8(d)),
        valid_utf8(d),
{
    let s = d.map_values(|x: u8| x as char);
    assert forall|k: int| 0 <= k < s.len() implies (#[trigger] s[k] as u32) < 0x80 by {
        assert(s[k] == d[k] as char);
    }
    lemma_encode_ascii(s);
    assert forall|k: int| 0 <= k < d.len() implies encode_utf8(s)[k] == d[k] by {
        let x = d[k];
        assert(s[k] == x as char);
        assert(((x as char) as u32) as u8 == x) by {
            vstd::utf8::char_u32_cast(x as char, (x as char) as u32);
        }
    }
    assert(encode_utf8(s) =~= d);
    encode_utf8_decode_utf8(s);
    encode_utf8_valid_utf8(s);
}

/// The escape of a text, read from the front.
proof fn lemma_escaped_front(s: Seq<char>)
    requires
        s.len() > 0,
    ensures
        json_escaped(s) == json_char_escape(s[0]) + json_escaped(s.drop_first()),
    decreases s.len(),
{
    if s.len() == 1 {
        assert(s.drop_last() =~= Seq::<char>::empty());
        assert(s.drop_first() =~= Seq::<char>::empty());
    } else {
        let t = s.drop_last();
        lemma_escaped_front(t);
        assert(t.drop_first() =~= s.drop_first().drop_last());
        assert(s.drop_first().last() == s.last());
        assert(t[0] == s[0]);
    }
}

/// The escape of ASCII text is ASCII.
proof fn lemma_escaped_ascii(s: Seq<char>)
    requires
        ascii(s),
    ensures
        ascii(json_escaped(s)),
    decreases s.len(),
{
    if s.len() > 0 {
        let t = s.drop_last();
        assert forall|k: int| 0 <= k < t.len() implies (#[trigger] t[k] as u32) < 0x80 by {
            assert(t[k] == s[k]);
        }
        lemma_escaped_ascii(t);
        let c = s.last();
        let e = json_char_escape(c);
        assert((c as u32) < 0x80);
        lemma_char_nat(c);
        assert((c as nat) < 0x80);
        if (c as nat) < 0x20 {
            lemma_hex_digit(c as nat / 16);
            lemma_hex_digit(c as nat % 16);
        }
        assert forall|k: int| 0 <= k < e.len() implies (#[trigger] e[k] as u32) < 0x80 by {}
        let r = json_escaped(s);
        assert(r == json_escaped(t) + e);
        assert forall|k: int| 0 <= k < r.len() implies (#[trigger] r[k] as u32) < 0x80 by {
            if k < json_escaped(t).len() {
                assert(r[k] == json_escaped(t)[k]);
            } else {
                assert(r[k] == e[k - json_escaped(t).len()]);
            }
        }
    }
}

proof fn lemma_char_nat(c: char)
    ensures
        (c as nat) == (c as u32) as nat,
{
}

/// A lowercase hexadecimal digit is an ASCII hexadecimal byte of its value.
proof fn lemma_hex_digit(d: nat)
    requires
        d < 16,
    ensures
        (hex_digit(d) as u32) < 0x80,
        is_hex_byte((hex_digit(d) as u32) as u8),
        hex_byte_value((hex_digit(d) as u32) as u8) == d,
{
}

/// Unquoting a string literal gives the escaped text.
proof fn lemma_unquote_literal(s: Seq<char>)
    ensures
        spec_json_escape(s) == json_escaped(s),
{
    let q = json_string_literal(s);
    assert(q.subrange(1, q.len() - 1) =~= json_escaped(s));
}

/// An ASCII character's byte, and the character read back from it.
proof fn lemma_ascii_byte(c: char)
    requires
        (c as u32) < 0x80,
    ensures
        ((c as u32) as u8) as int == c as u32,
        (((c as u32) as u8) as char) == c,
{
    let u = c as u32;
    assert((u as u8) as u32 == u) by (bit_vector)
        requires
            u < 0x80,
    ;
    vstd::utf8::char_u32_cast(c, u);
}

/// Reading an escaped ASCII text back gives the text, up to the quote
/// that closes it.
proof fn lemma_data_scan_escaped(b: Seq<u8>, j: int, s: Seq<char>, acc: Seq<char>)
    requires
        ascii(s),
        0 <= j,
        j + json_escaped(s).len() < b.len(),
        forall|k: int| 0 <= k < json_escaped(s).len() ==> b[j + k] == (#[trigger] json_escaped(s)[k] as u32) as u8,
        b[j + json_escaped(s).len()] == 0x22,
    ensures
        data_scan(b, j, acc) == (acc + s, j + json_escaped(s).len()),
    decreases s.len(),
{
    let e = json_escaped(s);
    if s.len() == 0 {
        assert(acc + s =~= acc);
    } else {
        lemma_escaped_front(s);
        let c = s[0];
        let ce = json_char_escape(c);
        let rest = s.drop_first();
        let n = ce.len() as int;
        let er = json_escaped(rest);
        assert(e == ce + er);
        assert forall|k: int| 0 <= k < n implies b[j + k] == (#[trigger] ce[k] as u32) as u8 by {
            assert(e[k] == ce[k]);
        }
        assert forall|k: int| 0 <= k < er.len() implies b[j + n + k] == (#[trigger] er[k] as u32) as u8 by {
            assert(e[n + k] == er[k]);
            assert(j + n + k == j + (n + k));
        }
        assert forall|k: int| 0 <= k < rest.len() implies (#[trigger] rest[k] as u32) < 0x80 by {
            assert(rest[k] == s[k + 1]);
        }
        assert(b[j + n + er.len()] == 0x22);
        lemma_data_scan_escaped(b, j + n, rest, acc.push(c));
        assert(acc.push(c) + rest =~= acc + s);
        lemma_char_nat(c);
        assert((c as u32) < 0x80);
        if c == '"' || c == '\\' || c == '\x08' || c == '\t' || c == '\n' || c == '\x0c' || c == '\r' {
            assert(b[j] == 0x5C);
            assert(data_scan(b, j, acc) == data_scan(b, j + 2, acc.push(c)));
        } else if (c as u32) < 0x20 {
            let v1 = c as nat / 16;
            let v2 = c as nat % 16;
            lemma_hex_digit(v1);
            lemma_hex_digit(v2);
            let h = b.subrange(j + 2, j + 6);
            assert(min_int(j + 6, b.len() as int) == j + 6);
            assert(h[0] == 0x30 && h[1] == 0x30);
            assert(h[2] == (hex_digit(v1) as u32) as u8);
            assert(h[3] == (hex_digit(v2) as u32) as u8);
            assert(hex_digits(h) == h);
            assert(all_hex(h));
            reveal_with_fuel(hex_fold, 5);
            assert(h.drop_last().drop_last().drop_last().drop_last() =~= Seq::<u8>::empty());
            assert(hex_fold(h) == v1 * 16 + v2);
            assert(hex_value(h) == Some(c as nat));
            vstd::utf8::char_u32_cast(c, c as u32);
            assert(data_scan(b, j, acc) == data_scan(b, j + 6, acc.push(c)));
        } else {
            lemma_ascii_byte(c);
            assert(ce == seq![c]);
            assert(ce[0] == c);
            assert(b[j + 0] == (ce[0] as u32) as u8);
            assert(b[j] == (c as u32) as u8);
            assert(data_scan(b, j, acc) == data_scan(b, j + 1, acc.push(c)));
        }
    }
}

/// No key of the reader starts at `p`.
pub open spec fn quiet(b: Seq<u8>, p: int) -> bool {
    !is_key_at(b, p, key_type()) && !is_key_at(b, p, key_data()) && !is_key_at(b, p, key_enc())
}

proof fn lemma_quiet(b: Seq<u8>, p: int)
    requires
        0 <= p < b.len(),
        b[p] != 0x22
            || (p + 1 < b.len() && b[p + 1] != 0x74 && b[p + 1] != 0x64 && b[p + 1] != 0x65)
            || (p + 2 < b.len() && b[p + 2] != 0x79 && b[p + 2] != 0x61 && b[p + 2] != 0x6E),
    ensures
        quiet(b, p),
{
    if is_key_at(b, p, key_type()) {
        let t = b.subrange(p, p + 6);
        assert(t[0] == b[p] && t[1] == b[p + 1] && t[2] == b[p + 2]);
        assert(t == key_type());
    }
    if is_key_at(b, p, key_data()) {
        let t = b.subrange(p, p + 6);
        assert(t[0] == b[p] && t[1] == b[p + 1] && t[2] == b[p + 2]);
        assert(t == key_data());
    }
    if is_key_at(b, p, key_enc()) {
        let t = b.subrange(p, p + 5);
        assert(t[0] == b[p] && t[1] == b[p + 1] && t[2] == b[p + 2]);
        assert(t == key_enc());
    }
}

/// The scan passes over positions where no key starts.
proof fn lemma_scan_quiet(b: Seq<u8>, i: int, j: int, f: Found)
    requires
        0 <= i <= j <= b.len(),
        forall|p: int| i <= p < j ==> #[trigger] quiet(b, p),
    ensures
        scan(b, i, f) == scan(b, j, f),
    decreases j - i,
{
    if i < j {
        assert(quiet(b, i));
        lemma_scan_quiet(b, i + 1, j, f);
    }
}

/// A key whose second byte differs does not start at `p`.
proof fn lemma_not_key(b: Seq<u8>, p: int, key: Seq<u8>)
    requires
        key.len() >= 2,
        0 <= p,
        p + 1 < b.len(),
        b[p + 1] != key[1],
    ensures
        !is_key_at(b, p, key),
{
    if is_key_at(b, p, key) {
        let t = b.subrange(p, p + key.len());
        assert(t[1] == b[p + 1]);
    }
}

/// The reader's check accepts every line of ASCII bytes.
proof fn lemma_scan_ok_ascii(b: Seq<u8>, i: int, f: Found)
    requires
        ascii_bytes(b),
    ensures
        scan_ok(b, i, f),
    decreases b.len() - i,
{
    if 0 <= i < b.len() {
        assert(b[i] < 0x80);
        if i + 6 < b.len() {
            assert(b[i + 6] < 0x80);
        }
        if i + 5 < b.len() {
            assert(b[i + 5] < 0x80);
        }
        if is_key_at(b, i, key_type()) {
            let (v, k) = raw_field(b, i + 6);
            let f2 = if v is Some { Found { ty: v, ..f } } else { f };
            if i < k <= b.len() {
                lemma_scan_ok_ascii(b, k, f2);
            }
        } else if is_key_at(b, i, key_data()) {
            let (v, k) = data_field(b, i + 6);
            let f2 = if v is Some { Found { data: v, ..f } } else { f };
            if i < k <= b.len() {
                lemma_scan_ok_ascii(b, k, f2);
            }
        } else if is_key_at(b, i, key_enc()) {
            let (v, k) = raw_field(b, i + 5);
            let f2 = if v is Some { Found { enc: v, ..f } } else { f };
            if i < k <= b.len() {
                lemma_scan_ok_ascii(b, k, f2);
            }
        } else {
            lemma_scan_ok_ascii(b, i + 1, f);
        }
    }
}

/// The digits of a number.
proof fn lemma_decimal_digits(n: nat)
    ensures
        decimal(n).len() > 0,
        forall|k: int| 0 <= k < decimal(n).len() ==> 0x30 <= (#[trigger] decimal(n)[k] as u32) <= 0x39,
    decreases n,
{
    if n >= 10 {
        lemma_decimal_digits(n / 10);
        let d = decimal(n);
        assert forall|k: int| 0 <= k < d.len() implies 0x30 <= (#[trigger] d[k] as u32) <= 0x39 by {
            if k < d.len() - 1 {
                assert(d[k] == decimal(n / 10)[k]);
            }
        }
    }
}

/// The characters of a signed number: a sign or digits, none a quote.
proof fn lemma_signed_digits(n: int)
    ensures
        signed_decimal(n).len() > 0,
        forall|k: int| 0 <= k < signed_decimal(n).len() ==> 0x2D <= (#[trigger] signed_decimal(n)[k] as u32) <= 0x39,
{
    if n < 0 {
        lemma_decimal_digits((-n) as nat);
        let d = decimal((-n) as nat);
        let s = signed_decimal(n);
        assert forall|k: int| 0 <= k < s.len() implies 0x2D <= (#[trigger] s[k] as u32) <= 0x39 by {
            if k > 0 {
                assert(s[k] == d[k - 1]);
            }
        }
    } else {
        lemma_decimal_digits(n as nat);
    }
}

/// Standard base64 is ASCII.
proof fn lemma_base64_ascii(d: Seq<u8>)
    ensures
        ascii(base64_standard(d)),
    decreases d.len(),
{
    if d.len() >= 3 {
        lemma_base64_ascii(d.skip(3));
        let r = base64_standard(d);
        let t = base64_standard(d.skip(3));
        assert forall|k: int| 0 <= k < r.len() implies (#[trigger] r[k] as u32) < 0x80 by {
            if k >= 4 {
                assert(r[k] == t[k - 4]);
            }
        }
    }
}

/// Joining ASCII texts gives ASCII text.
proof fn lemma_ascii_concat(a: Seq<char>, b: Seq<char>)
    requires
        ascii(a),
        ascii(b),
    ensures
        ascii(a + b),
{
    assert forall|k: int| 0 <= k < (a + b).len() implies (#[trigger] (a + b)[k] as u32) < 0x80 by {
        if k < a.len() {
            assert((a + b)[k] == a[k]);
        } else {
            assert((a + b)[k] == b[k - a.len()]);
        }
    }
}

/// The bytes of a piece of ASCII text within a line.
proof fn lemma_piece_bytes(l: Seq<char>, pre: Seq<char>, piece: Seq<char>, post: Seq<char>)
    requires
        l == pre + piece + post,
        ascii(l),
    ensures
        piece_at(encode_utf8(l), pre.len() as int, piece),
{
    lemma_encode_ascii(l);
    assert forall|k: int| 0 <= k < piece.len() implies encode_utf8(l)[pre.len() + k] == (#[trigger] piece[k] as u32) as u8 by {
        assert(l[pre.len() + k] == piece[k]);
    }
}

/// `piece` stands in `b`, byte for character, from `off`.
pub open spec fn piece_at(b: Seq<u8>, off: int, piece: Seq<char>) -> bool {
    &&& 0 <= off
    &&& off + piece.len() <= b.len()
    &&& forall|k: int| 0 <= k < piece.len() ==> b[off + k] == (#[trigger] piece[k] as u32) as u8
}

/// The record's head, `{"v":1,"t_ms":`, holds no key.
proof fn lemma_scan_head(b: Seq<u8>, f: Found)
    requires
        piece_at(b, 0, "{\"v\":1,\"t_ms\":"@),
        b.len() > 16,
    ensures
        scan(b, 0, f) == scan(b, 14, f),
{
    reveal_strlit("{\"v\":1,\"t_ms\":");
    let hh = "{\"v\":1,\"t_ms\":"@;
    assert(hh[0] == '{');
    lemma_quiet(b, 0int + 0);
    assert(scan(b, 0int + 0, f) == scan(b, 0int + 1, f));
    assert(hh[1] == '"' && hh[2] == 'v' && hh[3] == '"');
    lemma_quiet(b, 0int + 1);
    assert(scan(b, 0int + 1, f) == scan(b, 0int + 2, f));
    assert(hh[2] == 'v');
    lemma_quiet(b, 0int + 2);
    assert(scan(b, 0int + 2, f) == scan(b, 0int + 3, f));
    assert(hh[3] == '"' && hh[4] == ':' && hh[5] == '1');
    lemma_quiet(b, 0int + 3);
    assert(scan(b, 0int + 3, f) == scan(b, 0int + 4, f));
    assert(hh[4] == ':');
    lemma_quiet(b, 0int + 4);
    assert(scan(b, 0int + 4, f) == scan(b, 0int + 5, f));
    assert(hh[5] == '1');
    lemma_quiet(b, 0int + 5);
    assert(scan(b, 0int + 5, f) == scan(b, 0int + 6, f));
    assert(hh[6] == ',');
    lemma_quiet(b, 0int + 6);
    assert(scan(b, 0int + 6, f) == scan(b, 0int + 7, f));
    assert(hh[7] == '"' && hh[8] == 't' && hh[9] == '_');
    lemma_quiet(b, 0int + 7);
    assert(scan(b, 0int + 7, f) == scan(b, 0int + 8, f));
    assert(hh[8] == 't');
    lemma_quiet(b, 0int + 8);
    assert(scan(b, 0int + 8, f) == scan(b, 0int + 9, f));
    assert(hh[9] == '_');
    lemma_quiet(b, 0int + 9);
    assert(scan(b, 0int + 9, f) == scan(b, 0int + 10, f));
    assert(hh[10] == 'm');
    lemma_quiet(b, 0int + 10);
    assert(scan(b, 0int + 10, f) == scan(b, 0int + 11, f));
    assert(hh[11] == 's');
    lemma_quiet(b, 0int + 11);
    assert(scan(b, 0int + 11, f) == scan(b, 0int + 12, f));
    assert(hh[12] == '"' && hh[13] == ':');
    lemma_quiet(b, 0int + 12);
    assert(scan(b, 0int + 12, f) == scan(b, 0int + 13, f));
    assert(hh[13] == ':');
    lemma_quiet(b, 0int + 13);
    assert(scan(b, 0int + 13, f) == scan(b, 0int + 14, f));
}

/// A number holds no key.
proof fn lemma_scan_digits(b: Seq<u8>, off: int, t: Seq<char>, f: Found)
    requires
        piece_at(b, off, t),
        forall|k: int| 0 <= k < t.len() ==> 0x2D <= (#[trigger] t[k] as u32) <= 0x39,
    ensures
        scan(b, off, f) == scan(b, off + t.len(), f),
{
    assert forall|p: int| off <= p < off + t.len() implies #[trigger] quiet(b, p) by {
        assert(b[off + (p - off)] == (t[p - off] as u32) as u8);
        lemma_quiet(b, p);
    }
    lemma_scan_quiet(b, off, off + t.len(), f);
}

/// `,"type":"stdout","n":` gives the type and holds no other key.
proof fn lemma_scan_type_text(b: Seq<u8>, a: int, f: Found)
    requires
        piece_at(b, a, ",\"type\":\"stdout\",\"n\":"@),
        a + 23 < b.len(),
    ensures
        scan(b, a, f) == scan(b, a + 21, (Found { ty: Some(b.subrange(a + 9, a + 15)), ..f })),
        decode_utf8(b.subrange(a + 9, a + 15)) == "stdout"@,
{
    reveal_strlit(",\"type\":\"stdout\",\"n\":");
    reveal_strlit("stdout");
    let pp = ",\"type\":\"stdout\",\"n\":"@;
    assert(pp[0] == ',' && pp[1] == '"' && pp[2] == 't' && pp[3] == 'y' && pp[4] == 'p' && pp[5] == 'e' && pp[6] == '"' && pp[7] == ':' && pp[8] == '"' && pp[9] == 's' && pp[10] == 't' && pp[11] == 'd' && pp[12] == 'o' && pp[13] == 'u' && pp[14] == 't' && pp[15] == '"' && pp[16] == ',' && pp[17] == '"' && pp[18] == 'n' && pp[19] == '"' && pp[20] == ':');
    lemma_quiet(b, a);
    assert(scan(b, a, f) == scan(b, a + 1, f));
    assert(b.subrange(a + 1, a + 7) =~= key_type());
    assert(skip_sep(b, a + 8) == a + 8);
    assert(skip_sep(b, a + 7) == a + 8);
    assert(str_end(b, a + 15) == a + 15);
    assert(str_end(b, a + 14) == a + 15);
    assert(str_end(b, a + 13) == a + 15);
    assert(str_end(b, a + 12) == a + 15);
    assert(str_end(b, a + 11) == a + 15);
    assert(str_end(b, a + 10) == a + 15);
    assert(str_end(b, a + 9) == a + 15);
    let tyb = b.subrange(a + 9, a + 15);
    assert(raw_field(b, a + 7) == (Some(tyb), a + 16));
    let f1 = Found { ty: Some(tyb), ..f };
    assert(scan(b, a + 1, f) == scan(b, a + 16, f1));
    assert(pp[16] == ',');
    lemma_quiet(b, a + 16);
    assert(scan(b, a + 16, f1) == scan(b, a + 17, f1));
    assert(pp[17] == '"' && pp[18] == 'n' && pp[19] == '"');
    lemma_quiet(b, a + 17);
    assert(scan(b, a + 17, f1) == scan(b, a + 18, f1));
    assert(pp[18] == 'n');
    lemma_quiet(b, a + 18);
    assert(scan(b, a + 18, f1) == scan(b, a + 19, f1));
    assert(pp[19] == '"' && pp[20] == ':');
    lemma_quiet(b, a + 19);
    assert(scan(b, a + 19, f1) == scan(b, a + 20, f1));
    assert(pp[20] == ':');
    lemma_quiet(b, a + 20);
    assert(scan(b, a + 20, f1) == scan(b, a + 21, f1));
    lemma_stdout_bytes(tyb);
}

/// `,"type":"stdout","enc":"b64","n":` gives the type and the encoding
/// and holds no other key.
proof fn lemma_scan_type_b64(b: Seq<u8>, a: int, f: Found)
    requires
        piece_at(b, a, ",\"type\":\"stdout\",\"enc\":\"b64\",\"n\":"@),
        a + 35 < b.len(),
    ensures
        scan(b, a, f) == scan(b, a + 33, (Found { ty: Some(b.subrange(a + 9, a + 15)), enc: Some(b.subrange(a + 24, a + 27)), ..f })),
        decode_utf8(b.subrange(a + 9, a + 15)) == "stdout"@,
        decode_utf8(b.subrange(a + 24, a + 27)) == "b64"@,
{
    reveal_strlit(",\"type\":\"stdout\",\"enc\":\"b64\",\"n\":");
    reveal_strlit("stdout");
    reveal_strlit("b64");
    let pp = ",\"type\":\"stdout\",\"enc\":\"b64\",\"n\":"@;
    assert(pp[0] == ',' && pp[1] == '"' && pp[2] == 't' && pp[3] == 'y' && pp[4] == 'p' && pp[5] == 'e' && pp[6] == '"' && pp[7] == ':' && pp[8] == '"' && pp[9] == 's' && pp[10] == 't' && pp[11] == 'd' && pp[12] == 'o' && pp[13] == 'u' && pp[14] == 't' && pp[15] == '"' && pp[16] == ',' && pp[17] == '"' && pp[18] == 'e' && pp[19] == 'n' && pp[20] == 'c' && pp[21] == '"' && pp[22] == ':' && pp[23] == '"' && pp[24] == 'b' && pp[25] == '6' && pp[26] == '4' && pp[27] == '"' && pp[28] == ',' && pp[29] == '"' && pp[30] == 'n' && pp[31] == '"' && pp[32] == ':');
    lemma_quiet(b, a);
    assert(scan(b, a, f) == scan(b, a + 1, f));
    assert(b.subrange(a + 1, a + 7) =~= key_type());
    assert(skip_sep(b, a + 8) == a + 8);
    assert(skip_sep(b, a + 7) == a + 8);
    assert(str_end(b, a + 15) == a + 15);
    assert(str_end(b, a + 14) == a + 15);
    assert(str_end(b, a + 13) == a + 15);
    assert(str_end(b, a + 12) == a + 15);
    assert(str_end(b, a + 11) == a + 15);
    assert(str_end(b, a + 10) == a + 15);
    assert(str_end(b, a + 9) == a + 15);
    let tyb = b.subrange(a + 9, a + 15);
    assert(raw_field(b, a + 7) == (Some(tyb), a + 16));
    let f1 = Found { ty: Some(tyb), ..f };
    assert(scan(b, a + 1, f) == scan(b, a + 16, f1));
    lemma_quiet(b, a + 16);
    assert(scan(b, a + 16, f1) == scan(b, a + 17, f1));
    lemma_not_key(b, a + 17, key_type());
    lemma_not_key(b, a + 17, key_data());
    assert(b.subrange(a + 17, a + 22) =~= key_enc());
    assert(skip_sep(b, a + 23) == a + 23);
    assert(skip_sep(b, a + 22) == a + 23);
    assert(str_end(b, a + 27) == a + 27);
    assert(str_end(b, a + 26) == a + 27);
    assert(str_end(b, a + 25) == a + 27);
    assert(str_end(b, a + 24) == a + 27);
    let encb = b.subrange(a + 24, a + 27);
    assert(raw_field(b, a + 22) == (Some(encb), a + 28));
    let f2 = Found { enc: Some(encb), ..f1 };
    assert(scan(b, a + 17, f1) == scan(b, a + 28, f2));
    assert(pp[28] == ',');
    lemma_quiet(b, a + 28);
    assert(scan(b, a + 28, f2) == scan(b, a + 29, f2));
    assert(pp[29] == '"' && pp[30] == 'n' && pp[31] == '"');
    lemma_quiet(b, a + 29);
    assert(scan(b, a + 29, f2) == scan(b, a + 30, f2));
    assert(pp[30] == 'n');
    lemma_quiet(b, a + 30);
    assert(scan(b, a + 30, f2) == scan(b, a + 31, f2));
    assert(pp[31] == '"' && pp[32] == ':');
    lemma_quiet(b, a + 31);
    assert(scan(b, a + 31, f2) == scan(b, a + 32, f2));
    assert(pp[32] == ':');
    lemma_quiet(b, a + 32);
    assert(scan(b, a + 32, f2) == scan(b, a + 33, f2));
    assert(f2 == Found { ty: Some(tyb), enc: Some(encb), ..f });
    lemma_stdout_bytes(tyb);
    lemma_b64_bytes(encb);
}

proof fn lemma_stdout_bytes(t: Seq<u8>)
    requires
        t.len() == 6,
        t[0] == ('s' as u32) as u8,
        t[1] == ('t' as u32) as u8,
        t[2] == ('d' as u32) as u8,
        t[3] == ('o' as u32) as u8,
        t[4] == ('u' as u32) as u8,
        t[5] == ('t' as u32) as u8,
    ensures
        decode_utf8(t) == "stdout"@,
{
    reveal_strlit("stdout");
    lemma_ascii_byte('s');
    lemma_ascii_byte('t');
    lemma_ascii_byte('d');
    lemma_ascii_byte('o');
    lemma_ascii_byte('u');
    lemma_decode_ascii(t);
    assert(decode_utf8(t) =~= "stdout"@);
}

proof fn lemma_b64_bytes(t: Seq<u8>)
    requires
        t.len() == 3,
        t[0] == ('b' as u32) as u8,
        t[1] == ('6' as u32) as u8,
        t[2] == ('4' as u32) as u8,
    ensures
        decode_utf8(t) == "b64"@,
{
    reveal_strlit("b64");
    lemma_ascii_byte('b');
    lemma_ascii_byte('6');
    lemma_ascii_byte('4');
    lemma_decode_ascii(t);
    assert(decode_utf8(t) =~= "b64"@);
}

/// `,"data":"` then an escaped ASCII text and `"}`, to the end of the line:
/// the data is the text.
proof fn lemma_scan_data(b: Seq<u8>, c0: int, text: Seq<char>, f: Found)
    requires
        ascii(text),
        piece_at(b, c0, ",\"data\":\""@),
        piece_at(b, c0 + 9, json_escaped(text)),
        piece_at(b, c0 + 9 + json_escaped(text).len(), "\"}"@),
        b.len() == c0 + 9 + json_escaped(text).len() + 2,
    ensures
        scan(b, c0, f) == (Found { data: Some(text), ..f }),
{
    reveal_strlit(",\"data\":\"");
    reveal_strlit("\"}");
    let kk = ",\"data\":\""@;
    let zz = "\"}"@;
    let ez = c0 + 9 + json_escaped(text).len();
    assert(kk[0] == ',' && kk[1] == '"' && kk[2] == 'd' && kk[3] == 'a' && kk[4] == 't' && kk[5] == 'a' && kk[6] == '"' && kk[7] == ':' && kk[8] == '"');
    assert(zz[0] == '"' && zz[1] == '}');
    assert(b[ez + 0] == (zz[0] as u32) as u8);
    assert(b[ez + 1] == (zz[1] as u32) as u8);
    lemma_quiet(b, c0);
    assert(scan(b, c0, f) == scan(b, c0 + 1, f));
    lemma_not_key(b, c0 + 1, key_type());
    assert(b.subrange(c0 + 1, c0 + 7) =~= key_data());
    assert(skip_sep(b, c0 + 8) == c0 + 8);
    assert(skip_sep(b, c0 + 7) == c0 + 8);
    lemma_data_scan_escaped(b, c0 + 9, text, Seq::<char>::empty());
    assert(Seq::<char>::empty() + text =~= text);
    assert(data_field(b, c0 + 7) == (Some(text), ez + 1));
    let f2 = Found { data: Some(text), ..f };
    assert(scan(b, c0 + 1, f) == scan(b, ez + 1, f2));
    lemma_quiet(b, ez + 1);
    assert(scan(b, ez + 1, f2) == scan(b, ez + 2, f2));
}

/// The line of a `stdout` record, without its newline: what the reader is given.
pub open spec fn stdout_line(t_ms: int, data: Seq<u8>) -> Seq<char> {
    data_line(t_ms, "stdout"@, data).drop_last()
}

/// What reading a `stdout` record of `data` gives: the type, and the data
/// as text when it could be stored as a JSON string, else its standard
/// base64 with the `b64` encoding.
pub open spec fn stdout_reading(data: Seq<u8>) -> Option<(Seq<char>, Option<Seq<char>>, Option<Seq<char>>)> {
    if spec_json_safe(data) {
        Some(("stdout"@, Some(decode_utf8(data)), None))
    } else {
        Some(("stdout"@, Some(base64_standard(data)), Some("b64"@)))
    }
}

/// The record line as its pieces, and their bytes.
proof fn lemma_record_pieces(l: Seq<char>, tt: Seq<char>, pp: Seq<char>, dd: Seq<char>, text: Seq<char>)
    requires
        l == "{\"v\":1,\"t_ms\":"@ + tt + pp + dd + ",\"data\":\""@ + json_escaped(text) + "\"}"@,
        ascii(pp),
        ascii(text),
        forall|k: int| 0 <= k < tt.len() ==> 0x2D <= (#[trigger] tt[k] as u32) <= 0x39,
        forall|k: int| 0 <= k < dd.len() ==> 0x2D <= (#[trigger] dd[k] as u32) <= 0x39,
    ensures
        ascii_bytes(encode_utf8(l)),
        encode_utf8(l).len() == l.len(),
        piece_at(encode_utf8(l), 0, "{\"v\":1,\"t_ms\":"@),
        piece_at(encode_utf8(l), 14, tt),
        piece_at(encode_utf8(l), (14 + tt.len()) as int, pp),
        piece_at(encode_utf8(l), (14 + tt.len() + pp.len()) as int, dd),
        piece_at(encode_utf8(l), (14 + tt.len() + pp.len() + dd.len()) as int, ",\"data\":\""@),
        piece_at(encode_utf8(l), (14 + tt.len() + pp.len() + dd.len() + 9) as int, json_escaped(text)),
        piece_at(encode_utf8(l), (14 + tt.len() + pp.len() + dd.len() + 9 + json_escaped(text).len()) as int, "\"}"@),
{
    reveal_strlit("{\"v\":1,\"t_ms\":");
    reveal_strlit(",\"data\":\"");
    reveal_strlit("\"}");
    let hh = "{\"v\":1,\"t_ms\":"@;
    let kk = ",\"data\":\""@;
    let zz = "\"}"@;
    let ee = json_escaped(text);
    lemma_escaped_ascii(text);
    assert(ascii(hh));
    assert(ascii(kk));
    assert(ascii(zz));
    assert forall|k: int| 0 <= k < tt.len() implies (#[trigger] tt[k] as u32) < 0x80 by {}
    assert forall|k: int| 0 <= k < dd.len() implies (#[trigger] dd[k] as u32) < 0x80 by {}
    lemma_ascii_concat(hh, tt);
    lemma_ascii_concat(hh + tt, pp);
    lemma_ascii_concat(hh + tt + pp, dd);
    lemma_ascii_concat(hh + tt + pp + dd, kk);
    lemma_ascii_concat(hh + tt + pp + dd + kk, ee);
    lemma_ascii_concat(hh + tt + pp + dd + kk + ee, zz);
    let b = encode_utf8(l);
    lemma_encode_ascii(l);
    assert forall|k: int| 0 <= k < b.len() implies #[trigger] b[k] < 0x80 by {
        lemma_ascii_byte(l[k]);
    }
    let e0s = Seq::<char>::empty();
    assert(l =~= e0s + hh + (tt + pp + dd + kk + ee + zz));
    lemma_piece_bytes(l, e0s, hh, tt + pp + dd + kk + ee + zz);
    assert(l =~= hh + tt + (pp + dd + kk + ee + zz));
    lemma_piece_bytes(l, hh, tt, pp + dd + kk + ee + zz);
    assert(l =~= (hh + tt) + pp + (dd + kk + ee + zz));
    lemma_piece_bytes(l, hh + tt, pp, dd + kk + ee + zz);
    assert(l =~= (hh + tt + pp) + dd + (kk + ee + zz));
    lemma_piece_bytes(l, hh + tt + pp, dd, kk + ee + zz);
    assert(l =~= (hh + tt + pp + dd) + kk + (ee + zz));
    lemma_piece_bytes(l, hh + tt + pp + dd, kk, ee + zz);
    assert(l =~= (hh + tt + pp + dd + kk) + ee + zz);
    lemma_piece_bytes(l, hh + tt + pp + dd + kk, ee, zz);
    assert(l =~= (hh + tt + pp + dd + kk + ee) + zz + e0s);
    lemma_piece_bytes(l, hh + tt + pp + dd + kk + ee, zz, e0s);
}

/// A `stdout` record of ASCII data, read back by the line reader, gives
/// the `stdout` type, the data (as text, or as its base64 with the `b64`
/// encoding, as the record stored it), and the reader's check accepts the
/// line: what `write_stdout` writes, `parse_line` reads back.
pub proof fn lemma_stdout_record_reads_back(t_ms: int, data: Seq<u8>)
    requires
        ascii_bytes(data),
    ensures
        scan_ok(encode_utf8(stdout_line(t_ms, data)), 0, no_found()),
        spec_parse_line(stdout_line(t_ms, data)) == stdout_reading(data),
{
    reveal_strlit("{\"v\":1,\"t_ms\":");
    reveal_strlit(",\"type\":\"");
    reveal_strlit("stdout");
    reveal_strlit("\",\"n\":");
    reveal_strlit("\",\"enc\":\"b64\",\"n\":");
    reveal_strlit(",\"data\":\"");
    reveal_strlit("\"}\n");
    reveal_strlit("\"}");
    reveal_strlit(",\"type\":\"stdout\",\"n\":");
    reveal_strlit(",\"type\":\"stdout\",\"enc\":\"b64\",\"n\":");
    lemma_decode_ascii(data);
    lemma_signed_digits(t_ms);
    lemma_decimal_digits(data.len());
    let safe = spec_json_safe(data);
    let text = if safe { decode_utf8(data) } else { base64_standard(data) };
    let pp = if safe { ",\"type\":\"stdout\",\"n\":"@ } else { ",\"type\":\"stdout\",\"enc\":\"b64\",\"n\":"@ };
    if !safe {
        lemma_base64_ascii(data);
    }
    assert(ascii(pp));
    lemma_unquote_literal(text);
    let tt = signed_decimal(t_ms);
    let dd = decimal(data.len());
    let l = stdout_line(t_ms, data);
    assert(l =~= "{\"v\":1,\"t_ms\":"@ + tt + pp + dd + ",\"data\":\""@ + json_escaped(text) + "\"}"@);
    lemma_record_pieces(l, tt, pp, dd, text);
    let b = encode_utf8(l);
    let f0 = no_found();
    let a: int = 14 + tt.len() as int;
    let c0: int = a + pp.len() + dd.len();
    lemma_scan_ok_ascii(b, 0, f0);
    lemma_scan_head(b, f0);
    lemma_scan_digits(b, 14, tt, f0);
    if safe {
        lemma_scan_type_text(b, a, f0);
        let f1 = Found { ty: Some(b.subrange(a + 9, a + 15)), ..f0 };
        lemma_scan_digits(b, a + 21, dd, f1);
        lemma_scan_data(b, c0, text, f1);
    } else {
        lemma_scan_type_b64(b, a, f0);
        let f1 = Found { ty: Some(b.subrange(a + 9, a + 15)), enc: Some(b.subrange(a + 24, a + 27)), ..f0 };
        lemma_scan_digits(b, a + 33, dd, f1);
        lemma_scan_data(b, c0, text, f1);
    }
}

} // verus!
