//! Replaying a capture log on a terminal screen: which records carry
//! terminal output, the bytes they carry, and the text that redraws the
//! screen when following a log as it grows.

use vstd::prelude::*;
use base64::Engine;
use vstd::utf8::encode_utf8;
use crate::json::{get_member, json_value, member_of, parse_json_opt, text_as_str};
use crate::logfmt::{base64_standard, lemma_base64_injective, push_str};
use crate::terminal::{join_lines, spec_process, spec_process_ok, TerminalBuffer};
use crate::text::{chars_of, decimal, decimal_chars, extend_all, string_from_chars};

verus! {

/// The bytes whose standard base64 encoding is `text`, if any: the
/// encoding is one-to-one (`lemma_base64_injective`), so there is at most
/// one such sequence.
pub open spec fn base64_standard_decode(text: Seq<char>) -> Option<Seq<u8>> {
    if exists|b: Seq<u8>| base64_standard(b) == text {
        Some(choose|b: Seq<u8>| base64_standard(b) == text)
    } else {
        None
    }
}

/// Decodes standard base64 (`STANDARD.decode`, whose configuration
/// requires canonical padding and no trailing bits, so that it accepts
/// exactly the texts that `STANDARD.encode` writes); the error is dropped.
#[verifier::external_body]
fn base64_decode(text: &str) -> (r: Option<Vec<u8>>)
    ensures
        match r {
            Some(v) => base64_standard(v@) == text@,
            None => forall|b: Seq<u8>| base64_standard(b) != text@,
        },
{
    base64::engine::general_purpose::STANDARD.decode(text).ok()
}

/// Decodes standard base64 (see `base64_standard_decode`).
fn decode_base64(text: &str) -> (r: Option<Vec<u8>>)
    ensures
        match base64_standard_decode(text@) {
            Some(b) => r matches Some(v) && v@ == b,
            None => r is None,
        },
{
    let r = base64_decode(text);
    proof {
        if r is Some {
            let v = r->Some_0@;
            let b = choose|b: Seq<u8>| base64_standard(b) == text@;
            assert(base64_standard(v) == text@);
            lemma_base64_injective(b, v);
        }
    }
    r
}

pub open spec fn opt_text(o: Option<String>) -> Option<Seq<char>> {
    match o {
        Some(s) => Some(s@),
        None => None,
    }
}

/// A capture-log line: its type (required, a string) and, when they are
/// strings, its data and encoding.
pub open spec fn spec_parse_jsonl_line(line: Seq<char>) -> Option<(Seq<char>, Option<Seq<char>>, Option<Seq<char>>)> {
    let v = json_value(line);
    match text_as_str(get_member(v, "type"@)) {
        Some(t) => Some((t, text_as_str(get_member(v, "data"@)), text_as_str(get_member(v, "enc"@)))),
        None => None,
    }
}

/// Reads a capture-log line (see `spec_parse_jsonl_line`).
pub fn parse_jsonl_line(line: &str) -> (r: Option<(String, Option<String>, Option<String>)>)
    ensures
        match spec_parse_jsonl_line(line@) {
            Some((t, d, e)) => r matches Some((x, y, z)) && x@ == t && opt_text(y) == d && opt_text(z) == e,
            None => r is None,
        },
{
    let v = parse_json_opt(line);
    match crate::json::as_str_of(&member_of(&v, "type")) {
        Some(t) => Some((t, crate::json::as_str_of(&member_of(&v, "data")), crate::json::as_str_of(&member_of(&v, "enc")))),
        None => None,
    }
}

/// The output bytes a record carries: a `stdout` record's data, decoded
/// from base64 when its encoding is `b64` (a record whose base64 does not
/// decode carries nothing), else the data's UTF-8 bytes.
pub open spec fn spec_output_bytes(kind: Seq<char>, data: Option<Seq<char>>, enc: Option<Seq<char>>) -> Option<Seq<u8>> {
    if kind != "stdout"@ {
        None
    } else {
        match data {
            None => None,
            Some(d) => if enc == Some("b64"@) {
                base64_standard_decode(d)
            } else {
                Some(encode_utf8(d))
            },
        }
    }
}

fn same_text(s: &String, lit: &str) -> (r: bool)
    ensures r == (s@ == lit@),
{
    *s == String::from_str(lit)
}

/// The output bytes a record carries (see `spec_output_bytes`).
pub fn output_bytes(kind: &String, data: &Option<String>, enc: &Option<String>) -> (r: Option<Vec<u8>>)
    ensures
        match spec_output_bytes(kind@, opt_text(*data), opt_text(*enc)) {
            Some(b) => r matches Some(v) && v@ == b,
            None => r is None,
        },
{
    if !same_text(kind, "stdout") {
        return None;
    }
    match data {
        None => None,
        Some(d) => {
            let b64 = match enc {
                Some(e) => same_text(e, "b64"),
                None => false,
            };
            if b64 {
                decode_base64(d.as_str())
            } else {
                let bytes = d.as_str().as_bytes();
                Some(crate::text::slice_to_vec(bytes, 0, bytes.len()))
            }
        },
    }
}

/// Whether `-f` or `--follow` is among the arguments after the program.
pub open spec fn spec_follow(args: Seq<Seq<char>>) -> bool {
    exists|i: int| 1 <= i < args.len() && (args[i] == "-f"@ || args[i] == "--follow"@)
}

pub fn follow_requested(args: &Vec<String>) -> (r: bool)
    requires args@.len() >= 1,
    ensures r == spec_follow(crate::capture::strs(args@)),
{
    let ghost av = crate::capture::strs(args@);
    let mut i: usize = 1;
    while i < args.len()
        invariant
            1 <= i,
            av == crate::capture::strs(args@),
            forall|j: int| 1 <= j < i && j < av.len() ==> !(av[j] == "-f"@ || av[j] == "--follow"@),
        decreases args.len() - i,
    {
        assert(av[i as int] == args@[i as int]@);
        if same_text(&args[i], "-f") || same_text(&args[i], "--follow") {
            return true;
        }
        i = i + 1;
    }
    false
}

/// The text that redraws the screen: clear and home, the screen, and (on a
/// terminal) the cursor moved to its place, counted from one.
pub open spec fn spec_redraw(screen: Seq<char>, row: nat, col: nat, tty: bool) -> Seq<char> {
    "\x1b[2J\x1b[H"@ + screen + if tty { "\x1b["@ + decimal(row + 1) + ";"@ + decimal(col + 1) + "H"@ } else { seq![] }
}

/// The redraw text for the buffer (see `spec_redraw`).
pub fn redraw(buffer: &TerminalBuffer, tty: bool) -> (r: String)
    requires
        buffer.cursor.row < usize::MAX,
        buffer.cursor.col < usize::MAX,
    ensures
        r@ == spec_redraw(join_lines(buffer@.lines), buffer.cursor.row as nat, buffer.cursor.col as nat, tty),
{
    let mut v = chars_of("\x1b[2J\x1b[H");
    let screen = buffer.output();
    push_str(&mut v, screen.as_str());
    if tty {
        push_str(&mut v, "\x1b[");
        extend_all(&mut v, decimal_chars((buffer.cursor.row + 1) as u64).as_slice());
        push_str(&mut v, ";");
        extend_all(&mut v, decimal_chars((buffer.cursor.col + 1) as u64).as_slice());
        push_str(&mut v, "H");
    }
    string_from_chars(v.as_slice())
}

/// The output bytes a capture-log line carries (`None`: the line is not a
/// record, or a record that carries no output).
pub open spec fn spec_line_bytes(line: Seq<char>) -> Option<Seq<u8>> {
    match spec_parse_jsonl_line(line) {
        Some((t, d, e)) => spec_output_bytes(t, d, e),
        None => None,
    }
}

/// Replays one capture-log line on the screen: the bytes it carries go
/// through the emulator, and when following, the redraw text comes back.
/// `Err` (the screen unchanged) where the replay would take the cursor past
/// what a `usize` holds.
pub fn replay_line(buffer: &mut TerminalBuffer, line: &str, follow: bool, tty: bool) -> (r: Result<Option<String>, ()>)
    ensures
        match spec_line_bytes(line@) {
            None => r == Ok::<Option<String>, ()>(None) && final(buffer)@ == old(buffer)@,
            Some(b) => if !spec_process_ok(old(buffer)@, b) {
                r is Err && final(buffer)@ == old(buffer)@
            } else {
                let t = spec_process(old(buffer)@, b);
                if !follow {
                    r == Ok::<Option<String>, ()>(None) && final(buffer)@ == t
                } else if t.row < usize::MAX && t.col < usize::MAX {
                    &&& final(buffer)@ == t
                    &&& r matches Ok(Some(s)) && s@ == spec_redraw(join_lines(t.lines), t.row as nat, t.col as nat, tty)
                } else {
                    r is Err && final(buffer)@ == t
                }
            },
        },
{
    let bytes = match parse_jsonl_line(line) {
        Some((t, d, e)) => output_bytes(&t, &d, &e),
        None => None,
    };
    match bytes {
        None => Ok(None),
        Some(b) => {
            if !buffer.process_data_checked(b.as_slice()) {
                return Err(());
            }
            if !follow {
                return Ok(None);
            }
            if buffer.cursor.row < usize::MAX && buffer.cursor.col < usize::MAX {
                Ok(Some(redraw(buffer, tty)))
            } else {
                Err(())
            }
        },
    }
}

} // verus!
