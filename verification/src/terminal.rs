//! A small terminal emulator that replays captured output: printable
//! characters overwrite the line at the cursor, control characters move the
//! cursor, and ANSI CSI sequences move the cursor or erase parts of the
//! screen. OSC sequences and other escapes are skipped.
//!
//! The emulator is specified as a machine over the input: `spec_run_text`
//! (valid UTF-8 input, one character at a time) and `spec_run_bytes` (other
//! input, one byte at a time), each step being one escape sequence or one
//! character, with `spec_apply_csi` and `spec_apply_char` giving the effect of
//! a step. `spec_text_ok` / `spec_bytes_ok` hold when no step moves the cursor
//! past `usize::MAX` and no step starts inside a multi-byte character.

use vstd::prelude::*;
use vstd::utf8::*;

verus! {

broadcast use vstd::seq::group_seq_axioms;

pub const ESC: u8 = 0x1B;

/// The abstract screen: lines of characters, the cursor and the saved cursor.
pub struct Term {
    pub lines: Seq<Seq<char>>,
    pub row: int,
    pub col: int,
    pub srow: int,
    pub scol: int,
}

/// The line at `r`, or an empty line past the end.
pub open spec fn line_at(lines: Seq<Seq<char>>, r: int) -> Seq<char> {
    if 0 <= r < lines.len() { lines[r] } else { seq![] }
}

/// `lines` extended with empty lines so that line `r` exists.
pub open spec fn ensure(lines: Seq<Seq<char>>, r: int) -> Seq<Seq<char>> {
    if r < lines.len() { lines } else { lines + Seq::new((r + 1 - lines.len()) as nat, |k: int| Seq::<char>::empty()) }
}

pub open spec fn spaces(n: nat) -> Seq<char> {
    Seq::new(n, |k: int| ' ')
}

/// Writes `ch` over column `col` of `line`, padding with spaces when the line is shorter.
pub open spec fn put_char(line: Seq<char>, col: int, ch: char) -> Seq<char> {
    if col < line.len() { line.update(col, ch) } else { (line + spaces((col - line.len()) as nat)).push(ch) }
}

pub open spec fn with_line(t: Term, lines: Seq<Seq<char>>) -> Term {
    Term { lines, ..t }
}

/// A printable character: written at the cursor, which then moves right.
pub open spec fn spec_insert(t: Term, ch: char) -> Term {
    let ls = ensure(t.lines, t.row);
    Term { lines: ls.update(t.row, put_char(ls[t.row], t.col, ch)), col: t.col + 1, ..t }
}

/// Backspace: removes the character left of the cursor and moves left.
pub open spec fn spec_backspace(t: Term) -> Term {
    if t.col > 0 {
        let ls = ensure(t.lines, t.row);
        let line = ls[t.row];
        let nl = if t.col - 1 < line.len() { line.remove(t.col - 1) } else { line };
        Term { lines: ls.update(t.row, nl), col: t.col - 1, ..t }
    } else {
        t
    }
}

/// Line feed: next row, first column.
pub open spec fn spec_newline(t: Term) -> Term {
    Term { lines: ensure(t.lines, t.row + 1), row: t.row + 1, col: 0, ..t }
}

/// `char::is_control`: general category Cc.
pub open spec fn is_cc(c: char) -> bool {
    (c as u32) <= 0x1F || (0x7F <= (c as u32) && (c as u32) <= 0x9F)
}

/// Effect of one decoded character.
pub open spec fn spec_apply_char(t: Term, c: char) -> Term {
    if c == '\x08' { spec_backspace(t) }
    else if c == '\r' { Term { col: 0, ..t } }
    else if c == '\n' { spec_newline(t) }
    else if is_cc(c) { t }
    else { spec_insert(t, c) }
}

/// The character's effect keeps the cursor within `usize`.
pub open spec fn spec_char_ok(t: Term, c: char) -> bool {
    if c == '\x08' || c == '\r' || is_cc(c) && c != '\n' { true }
    else if c == '\n' { t.row + 1 <= usize::MAX }
    else { t.col + 1 <= usize::MAX }
}

pub open spec fn is_digit_byte(b: u8) -> bool { 0x30 <= b <= 0x39 }

pub open spec fn is_param_byte(b: u8) -> bool { is_digit_byte(b) || b == 0x3B }

/// Value of a run of decimal digits.
pub open spec fn digits_value(ds: Seq<u8>) -> nat
    decreases ds.len(),
{
    if ds.len() == 0 { 0 } else { digits_value(ds.drop_last()) * 10 + (ds.last() - 0x30) as nat }
}

/// A parameter as `str::parse::<usize>` gives it, 0 where it overflows.
pub open spec fn param_value(ds: Seq<u8>) -> int {
    if digits_value(ds) <= usize::MAX { digits_value(ds) as int } else { 0 }
}

/// Parameters completed so far and the digits of the parameter in progress.
pub open spec fn params_fold(r: Seq<u8>) -> (Seq<int>, Seq<u8>)
    decreases r.len(),
{
    if r.len() == 0 {
        (seq![], seq![])
    } else {
        let (ps, cur) = params_fold(r.drop_last());
        if r.last() == 0x3B { (ps.push(param_value(cur)), seq![]) } else { (ps, cur.push(r.last())) }
    }
}

/// The `;`-separated parameters of a CSI sequence; an empty parameter
/// before a `;` counts as 0 and a trailing empty one is dropped.
pub open spec fn parse_params(r: Seq<u8>) -> Seq<int> {
    let (ps, cur) = params_fold(r);
    if cur.len() == 0 { ps } else { ps.push(param_value(cur)) }
}

/// End of the parameter bytes that start at `k`.
pub open spec fn param_end(data: Seq<u8>, k: int) -> int
    decreases data.len() - k,
{
    if 0 <= k < data.len() && is_param_byte(data[k]) { param_end(data, k + 1) } else { k }
}

/// End of an OSC sequence whose body starts at `j` (BEL or ESC `\` ends it).
pub open spec fn osc_end(data: Seq<u8>, j: int) -> int
    decreases data.len() - j,
{
    if j < 0 || j >= data.len() { data.len() as int }
    else if data[j] == 0x07 { j + 1 }
    else if data[j] == ESC && j + 1 < data.len() && data[j + 1] == 0x5C { j + 2 }
    else { osc_end(data, j + 1) }
}

/// Start of the parameters of the CSI sequence whose ESC is at `i`.
pub open spec fn csi_param_start(data: Seq<u8>, i: int) -> int {
    if i + 2 < data.len() && data[i + 2] == 0x3F { i + 3 } else { i + 2 }
}

pub open spec fn is_osc(data: Seq<u8>, i: int) -> bool {
    i + 1 < data.len() && data[i + 1] == 0x5D
}

pub open spec fn is_csi(data: Seq<u8>, i: int) -> bool {
    i + 1 < data.len() && data[i + 1] == 0x5B
}

/// Index just after the escape sequence whose ESC is at `i`.
pub open spec fn esc_end(data: Seq<u8>, i: int) -> int {
    if is_osc(data, i) { osc_end(data, i + 2) }
    else if !is_csi(data, i) { i + 1 }
    else {
        let m = param_end(data, csi_param_start(data, i));
        if m >= data.len() { m } else { m + 1 }
    }
}

/// The escape at `i` is a complete CSI sequence (it has a final byte).
pub open spec fn esc_has_final(data: Seq<u8>, i: int) -> bool {
    !is_osc(data, i) && is_csi(data, i) && param_end(data, csi_param_start(data, i)) < data.len()
}

pub open spec fn esc_final(data: Seq<u8>, i: int) -> u8 {
    data[param_end(data, csi_param_start(data, i))]
}

pub open spec fn esc_params(data: Seq<u8>, i: int) -> Seq<int> {
    parse_params(data.subrange(csi_param_start(data, i), param_end(data, csi_param_start(data, i))))
}

/// First parameter, or `d` when there is none.
pub open spec fn p0(ps: Seq<int>, d: int) -> int {
    if ps.len() == 0 { d } else { ps[0] }
}

/// After a vertical move the column is clamped to the length of the new line.
pub open spec fn clamp_col(t: Term) -> Term {
    let ls = ensure(t.lines, t.row);
    let n = ls[t.row].len() as int;
    Term { lines: ls, col: if t.col > n { n } else { t.col }, ..t }
}

/// The part of `line` from `col` on (empty when `col` is past its end).
pub open spec fn keep_from(line: Seq<char>, col: int) -> Seq<char> {
    if col < line.len() { line.subrange(col, line.len() as int) } else { seq![] }
}

/// The part of `line` before `col`.
pub open spec fn cut_at(line: Seq<char>, col: int) -> Seq<char> {
    if col < line.len() { line.subrange(0, col) } else { line }
}

/// Effect of a CSI sequence with final byte `f` and parameters `ps`.
pub open spec fn spec_apply_csi(t: Term, f: u8, ps: Seq<int>) -> Term {
    if f == 0x44 {
        // D: cursor left
        let n = p0(ps, 1);
        Term { col: if n > t.col { 0 } else { t.col - n }, ..t }
    } else if f == 0x43 {
        // C: cursor right
        Term { col: t.col + p0(ps, 1), ..t }
    } else if f == 0x41 {
        // A: cursor up
        let n = p0(ps, 1);
        clamp_col(Term { row: if n > t.row { 0 } else { t.row - n }, ..t })
    } else if f == 0x42 {
        // B: cursor down
        clamp_col(Term { row: t.row + p0(ps, 1), ..t })
    } else if f == 0x73 {
        // s: save cursor
        Term { srow: t.row, scol: t.col, ..t }
    } else if f == 0x75 {
        // u: restore cursor
        Term { row: t.srow, col: t.scol, ..t }
    } else if f == 0x4B {
        // K: erase in line
        let p = p0(ps, 0);
        let ls = ensure(t.lines, t.row);
        if p == 0 {
            Term { lines: ls.update(t.row, cut_at(ls[t.row], t.col)), ..t }
        } else if p == 1 {
            Term { lines: ls.update(t.row, keep_from(ls[t.row], t.col)), col: 0, ..t }
        } else if p == 2 {
            Term { lines: ls.update(t.row, seq![]), col: 0, ..t }
        } else {
            t
        }
    } else if f == 0x4A {
        // J: erase in display
        let p = p0(ps, 0);
        let ls = ensure(t.lines, t.row);
        if p == 0 {
            Term { lines: ls.update(t.row, cut_at(ls[t.row], t.col)).take(t.row + 1), ..t }
        } else if p == 1 {
            Term { lines: ls.update(t.row, keep_from(ls[t.row], t.col)).skip(t.row), row: 0, ..t }
        } else if p == 2 {
            Term { lines: seq![seq![]], row: 0, col: 0, ..t }
        } else {
            t
        }
    } else if f == 0x48 {
        // H: cursor position (1-based; a missing column keeps the column)
        let row = if ps.len() == 0 || ps[0] == 0 { 0 } else { ps[0] - 1 };
        let col = if ps.len() >= 2 { if ps[1] == 0 { 0 } else { ps[1] - 1 } }
            else if ps.len() == 1 { t.col } else { 0 };
        Term { row, col, ..t }
    } else {
        t
    }
}

/// The CSI sequence keeps the cursor within `usize`.
pub open spec fn spec_csi_ok(t: Term, f: u8, ps: Seq<int>) -> bool {
    if f == 0x43 { t.col + p0(ps, 1) <= usize::MAX }
    else if f == 0x42 { t.row + p0(ps, 1) <= usize::MAX }
    else { true }
}

/// Effect of the escape sequence at `i`.
pub open spec fn spec_apply_esc(t: Term, data: Seq<u8>, i: int) -> Term {
    if esc_has_final(data, i) { spec_apply_csi(t, esc_final(data, i), esc_params(data, i)) } else { t }
}

pub open spec fn spec_esc_ok(t: Term, data: Seq<u8>, i: int) -> bool {
    esc_has_final(data, i) ==> spec_csi_ok(t, esc_final(data, i), esc_params(data, i))
}

/// The character encoded at `pos` of valid UTF-8 `data`.
pub open spec fn char_at(data: Seq<u8>, pos: int) -> char {
    decode_first_scalar(data.subrange(pos, data.len() as int)) as char
}

pub open spec fn char_width_at(data: Seq<u8>, pos: int) -> int {
    length_of_first_scalar(data.subrange(pos, data.len() as int))
}

/// Replays valid UTF-8 `data` from byte `pos`.
pub open spec fn spec_run_text(t: Term, data: Seq<u8>, pos: int) -> Term
    decreases data.len() - pos,
{
    if pos < 0 || pos >= data.len() {
        t
    } else if data[pos] == ESC {
        let e = esc_end(data, pos);
        if e <= pos || e > data.len() { t } else { spec_run_text(spec_apply_esc(t, data, pos), data, e) }
    } else {
        let w = char_width_at(data, pos);
        if w < 1 || pos + w > data.len() { t } else { spec_run_text(spec_apply_char(t, char_at(data, pos)), data, pos + w) }
    }
}

/// Replaying valid UTF-8 `data` from `pos` keeps the cursor within `usize`
/// and never resumes inside a multi-byte character.
pub open spec fn spec_text_ok(t: Term, data: Seq<u8>, pos: int) -> bool
    decreases data.len() - pos,
{
    if pos < 0 || pos >= data.len() {
        true
    } else if data[pos] == ESC {
        let e = esc_end(data, pos);
        spec_esc_ok(t, data, pos) && (e <= pos || e > data.len() || spec_text_ok(spec_apply_esc(t, data, pos), data, e))
    } else {
        let w = char_width_at(data, pos);
        &&& !is_continuation_byte(data[pos])
        &&& spec_char_ok(t, char_at(data, pos))
        &&& (w < 1 || pos + w > data.len() || spec_text_ok(spec_apply_char(t, char_at(data, pos)), data, pos + w))
    }
}

/// Effect of one byte of input that is not valid UTF-8: only backspace,
/// carriage return and line feed act; other bytes are skipped.
pub open spec fn spec_apply_byte(t: Term, b: u8) -> Term {
    if b == 0x08 { spec_backspace(t) }
    else if b == 0x0D { Term { col: 0, ..t } }
    else if b == 0x0A { spec_newline(t) }
    else { t }
}

/// Replays `data` that is not valid UTF-8 from byte `i`.
pub open spec fn spec_run_bytes(t: Term, data: Seq<u8>, i: int) -> Term
    decreases data.len() - i,
{
    if i < 0 || i >= data.len() {
        t
    } else if data[i] == ESC {
        let e = esc_end(data, i);
        if e <= i || e > data.len() { t } else { spec_run_bytes(spec_apply_esc(t, data, i), data, e) }
    } else {
        spec_run_bytes(spec_apply_byte(t, data[i]), data, i + 1)
    }
}

pub open spec fn spec_bytes_ok(t: Term, data: Seq<u8>, i: int) -> bool
    decreases data.len() - i,
{
    if i < 0 || i >= data.len() {
        true
    } else if data[i] == ESC {
        let e = esc_end(data, i);
        spec_esc_ok(t, data, i) && (e <= i || e > data.len() || spec_bytes_ok(spec_apply_esc(t, data, i), data, e))
    } else {
        (data[i] == 0x0A ==> t.row + 1 <= usize::MAX) && spec_bytes_ok(spec_apply_byte(t, data[i]), data, i + 1)
    }
}

/// Replays `data`: character by character when it is valid UTF-8, byte by byte otherwise.
pub open spec fn spec_process(t: Term, data: Seq<u8>) -> Term {
    if valid_utf8(data) { spec_run_text(t, data, 0) } else { spec_run_bytes(t, data, 0) }
}

pub open spec fn spec_process_ok(t: Term, data: Seq<u8>) -> bool {
    if valid_utf8(data) { spec_text_ok(t, data, 0) } else { spec_bytes_ok(t, data, 0) }
}


/// Terminal cursor and the position saved by `CSI s`.
pub struct Cursor {
    pub row: usize,
    pub col: usize,
    pub saved_row: usize,
    pub saved_col: usize,
}

impl Cursor {
    pub fn new() -> (c: Self)
        ensures c.row == 0 && c.col == 0 && c.saved_row == 0 && c.saved_col == 0,
    {
        Cursor { row: 0, col: 0, saved_row: 0, saved_col: 0 }
    }

    pub fn save_position(&mut self)
        ensures *final(self) == (Cursor { saved_row: old(self).row, saved_col: old(self).col, ..*old(self) }),
    {
        self.saved_row = self.row;
        self.saved_col = self.col;
    }

    pub fn restore_position(&mut self)
        ensures *final(self) == (Cursor { row: old(self).saved_row, col: old(self).saved_col, ..*old(self) }),
    {
        self.row = self.saved_row;
        self.col = self.saved_col;
    }

    /// Moves left, stopping at column 0.
    pub fn move_left(&mut self, steps: usize)
        ensures *final(self) == (Cursor { col: if steps > old(self).col { 0 } else { (old(self).col - steps) as usize }, ..*old(self) }),
    {
        if steps > self.col { self.col = 0; } else { self.col = self.col - steps; }
    }

    pub fn move_right(&mut self, steps: usize)
        requires old(self).col + steps <= usize::MAX,
        ensures *final(self) == (Cursor { col: (old(self).col + steps) as usize, ..*old(self) }),
    {
        self.col = self.col + steps;
    }

    /// Moves up, stopping at row 0.
    pub fn move_up(&mut self, steps: usize)
        ensures *final(self) == (Cursor { row: if steps > old(self).row { 0 } else { (old(self).row - steps) as usize }, ..*old(self) }),
    {
        if steps > self.row { self.row = 0; } else { self.row = self.row - steps; }
    }

    pub fn move_down(&mut self, steps: usize)
        requires old(self).row + steps <= usize::MAX,
        ensures *final(self) == (Cursor { row: (old(self).row + steps) as usize, ..*old(self) }),
    {
        self.row = self.row + steps;
    }

    pub fn set_position(&mut self, row: usize, col: usize)
        ensures *final(self) == (Cursor { row, col, ..*old(self) }),
    {
        self.row = row;
        self.col = col;
    }
}

/// The emulated screen: lines of characters and a cursor.
pub struct TerminalBuffer {
    pub lines: Vec<Vec<char>>,
    pub cursor: Cursor,
}

pub open spec fn lines_view(lines: Seq<Vec<char>>) -> Seq<Seq<char>> {
    lines.map_values(|l: Vec<char>| l@)
}

/// Lines joined with `\n`.
pub open spec fn join_lines(lines: Seq<Seq<char>>) -> Seq<char>
    decreases lines.len(),
{
    if lines.len() == 0 { seq![] }
    else if lines.len() == 1 { lines[0] }
    else { join_lines(lines.drop_last()) + seq!['\n'] + lines.last() }
}

impl View for TerminalBuffer {
    type V = Term;

    open spec fn view(&self) -> Term {
        Term {
            lines: lines_view(self.lines@),
            row: self.cursor.row as int,
            col: self.cursor.col as int,
            srow: self.cursor.saved_row as int,
            scol: self.cursor.saved_col as int,
        }
    }
}

fn take_line(lines: &mut Vec<Vec<char>>, row: usize) -> (r: Vec<char>)
    requires row < old(lines)@.len(),
    ensures
        r == old(lines)@[row as int],
        final(lines)@.len() == old(lines)@.len(),
        final(lines)@[row as int]@.len() == 0,
        forall|i: int| 0 <= i < old(lines)@.len() && i != row ==> final(lines)@[i] == old(lines)@[i],
{
    let mut tmp: Vec<char> = Vec::new();
    std::mem::swap(&mut lines[row], &mut tmp);
    tmp
}

fn put_line(lines: &mut Vec<Vec<char>>, row: usize, line: Vec<char>)
    requires row < old(lines)@.len(),
    ensures lines_view(final(lines)@) == lines_view(old(lines)@).update(row as int, line@),
        final(lines)@.len() == old(lines)@.len(),
{
    let mut tmp = line;
    std::mem::swap(&mut lines[row], &mut tmp);
    assert(lines_view(lines@) =~= lines_view(old(lines)@).update(row as int, line@));
}

impl TerminalBuffer {
    /// An empty screen with a single empty line and the cursor at the origin.
    pub fn new() -> (t: Self)
        ensures t@ == (Term { lines: seq![seq![]], row: 0, col: 0, srow: 0, scol: 0 }),
    {
        let mut lines: Vec<Vec<char>> = Vec::new();
        lines.push(Vec::new());
        let t = TerminalBuffer { lines, cursor: Cursor::new() };
        assert(t@.lines =~= seq![seq![]]);
        t
    }

    /// Appends empty lines until line `row` exists.
    pub fn ensure_line(&mut self, row: usize)
        ensures
            final(self)@ == (Term { lines: ensure(old(self)@.lines, row as int), ..old(self)@ }),
            final(self).lines@.len() > row,
    {
        let ghost start = self.lines@.len();
        while self.lines.len() <= row
            invariant
                self.cursor == old(self).cursor,
                start == old(self).lines@.len(),
                self.lines@.len() >= start,
                self.lines@.len() <= row + 1 || self.lines@.len() == start,
                lines_view(self.lines@) =~= lines_view(old(self).lines@) + Seq::new((self.lines@.len() - start) as nat, |k: int| Seq::<char>::empty()),
            decreases row + 1 - self.lines@.len(),
        {
            let ghost prev = self.lines@;
            let e: Vec<char> = Vec::new();
            self.lines.push(e);
            assert(lines_view(self.lines@) =~= lines_view(prev).push(Seq::<char>::empty()));
            assert(lines_view(self.lines@) =~= lines_view(old(self).lines@) + Seq::new((self.lines@.len() - start) as nat, |k: int| Seq::<char>::empty()));
        }
        assert(lines_view(self.lines@) =~= ensure(lines_view(old(self).lines@), row as int));
    }

    /// The screen as text: lines joined with `\n`.
    pub fn output(&self) -> (r: String)
        ensures r@ == join_lines(self@.lines),
    {
        let mut out: Vec<char> = Vec::new();
        let n = self.lines.len();
        let mut i: usize = 0;
        while i < n
            invariant
                n == self.lines@.len(),
                0 <= i <= n,
                out@ == join_lines(self@.lines.take(i as int)),
            decreases n - i,
        {
            if i > 0 {
                out.push('\n');
            }
            crate::text::extend_all(&mut out, self.lines[i].as_slice());
            proof {
                let ls = self@.lines.take(i + 1);
                assert(ls.drop_last() =~= self@.lines.take(i as int));
                assert(ls.last() == self.lines@[i as int]@);
                if i == 0 { assert(ls.len() == 1); }
            }
            i = i + 1;
        }
        assert(self@.lines.take(n as int) =~= self@.lines);
        crate::text::string_from_chars(out.as_slice())
    }

    /// Writes a printable character at the cursor and moves right.
    pub fn insert_char(&mut self, ch: char)
        requires old(self)@.col + 1 <= usize::MAX,
        ensures final(self)@ == spec_insert(old(self)@, ch),
    {
        let row = self.cursor.row;
        let col = self.cursor.col;
        self.ensure_line(row);
        let ghost before = self@;
        let mut line = take_line(&mut self.lines, row);
        let ghost l0 = line@;
        while line.len() < col
            invariant
                l0.len() <= col ==> line@ == l0 + spaces((line@.len() - l0.len()) as nat),
                l0.len() > col ==> line@ == l0,
                line@.len() <= col || line@ == l0,
            decreases col - line@.len(),
        {
            line.push(' ');
            assert(line@ =~= l0 + spaces((line@.len() - l0.len()) as nat));
        }
        if col < line.len() {
            line.set(col, ch);
        } else {
            line.push(ch);
        }
        proof {
            if l0.len() < col {
                assert(line@ =~= put_char(l0, col as int, ch));
            } else if l0.len() == col {
                assert(spaces(0) =~= Seq::<char>::empty());
                assert(line@ =~= put_char(l0, col as int, ch));
            } else {
                assert(line@ =~= put_char(l0, col as int, ch));
            }
        }
        put_line(&mut self.lines, row, line);
        self.cursor.move_right(1);
        assert(self@.lines =~= ensure(old(self)@.lines, row as int).update(row as int, put_char(l0, col as int, ch)));
    }
}

impl TerminalBuffer {
    fn backspace(&mut self)
        ensures final(self)@ == spec_backspace(old(self)@),
    {
        if self.cursor.col > 0 {
            let row = self.cursor.row;
            let col_to_remove = self.cursor.col - 1;
            self.ensure_line(row);
            let mut line = take_line(&mut self.lines, row);
            let ghost l0 = line@;
            if col_to_remove < line.len() {
                line.remove(col_to_remove);
            }
            let ghost l1 = line@;
            put_line(&mut self.lines, row, line);
            self.cursor.move_left(1);
            proof {
                let ls = ensure(old(self)@.lines, row as int);
                assert(l0 == ls[row as int]);
                let nl = if col_to_remove < l0.len() { l0.remove(col_to_remove as int) } else { l0 };
                assert(l1 == nl);
                assert(self@.lines =~= ls.update(row as int, nl));
            }
        }
    }

    fn newline(&mut self)
        requires old(self)@.row + 1 <= usize::MAX,
        ensures final(self)@ == spec_newline(old(self)@),
    {
        self.cursor.row = self.cursor.row + 1;
        self.cursor.col = 0;
        let r = self.cursor.row;
        self.ensure_line(r);
    }

    /// The effect of one decoded character of valid UTF-8 input.
    pub fn apply_char(&mut self, ch: char)
        requires spec_char_ok(old(self)@, ch),
        ensures final(self)@ == spec_apply_char(old(self)@, ch),
    {
        let u = ch as u32;
        if ch == '\x08' {
            self.backspace();
        } else if ch == '\r' {
            self.cursor.col = 0;
        } else if ch == '\n' {
            self.newline();
        } else if u <= 0x1F || (0x7F <= u && u <= 0x9F) {
        } else {
            self.insert_char(ch);
        }
    }

    /// Whether `apply_char` keeps the cursor within `usize`.
    pub fn char_fits(&self, ch: char) -> (r: bool)
        ensures r == spec_char_ok(self@, ch),
    {
        let u = ch as u32;
        if ch == '\x08' || ch == '\r' || ((u <= 0x1F || (0x7F <= u && u <= 0x9F)) && ch != '\n') {
            true
        } else if ch == '\n' {
            self.cursor.row < usize::MAX
        } else {
            self.cursor.col < usize::MAX
        }
    }
}

pub open spec fn params_view(v: Seq<usize>) -> Seq<int> {
    v.map_values(|x: usize| x as int)
}

/// The parameters of a CSI sequence held in `data[k..m]`, all digits or `;`.
fn parse_params_exec(data: &[u8], k: usize, m: usize) -> (r: Vec<usize>)
    requires
        k <= m <= data@.len(),
        forall|x: int| k <= x < m ==> is_param_byte(#[trigger] data@[x]),
    ensures
        params_view(r@) == parse_params(data@.subrange(k as int, m as int)),
{
    let mut ps: Vec<usize> = Vec::new();
    let mut cur_nonempty = false;
    let mut cur_val: Option<usize> = Some(0);
    let mut idx = k;
    while idx < m
        invariant
            k <= idx <= m <= data@.len(),
            forall|x: int| k <= x < m ==> is_param_byte(#[trigger] data@[x]),
            ({
                let (pv, cur) = params_fold(data@.subrange(k as int, idx as int));
                &&& params_view(ps@) == pv
                &&& cur_nonempty == (cur.len() > 0)
                &&& cur_val == (if digits_value(cur) <= usize::MAX { Some(digits_value(cur) as usize) } else { None::<usize> })
            }),
        decreases m - idx,
    {
        let b = data[idx];
        let ghost r = data@.subrange(k as int, idx as int);
        let ghost r2 = data@.subrange(k as int, idx + 1);
        assert(r2.drop_last() =~= r);
        assert(r2.last() == b);
        let ghost (pv, cur) = params_fold(r);
        if b == 0x3B {
            let v = match cur_val { Some(v) => v, None => 0 };
            ps.push(v);
            cur_nonempty = false;
            cur_val = Some(0);
            assert(params_view(ps@) =~= pv.push(param_value(cur)));
            assert(digits_value(Seq::<u8>::empty()) == 0);
        } else {
            let d = (b - 0x30) as usize;
            cur_val = match cur_val {
                Some(v) => if v <= (usize::MAX - d) / 10 { Some(v * 10 + d) } else { None },
                None => None,
            };
            cur_nonempty = true;
            proof {
                let c2 = cur.push(b);
                assert(c2.drop_last() =~= cur);
                assert(digits_value(c2) == digits_value(cur) * 10 + d);
            }
        }
        idx = idx + 1;
    }
    let ghost (pv, cur) = params_fold(data@.subrange(k as int, m as int));
    if cur_nonempty {
        let v = match cur_val { Some(v) => v, None => 0 };
        ps.push(v);
        assert(params_view(ps@) =~= pv.push(param_value(cur)));
    }
    ps
}

/// Position after the escape sequence at `i`, and for a complete CSI
/// sequence its final byte and parameters.
pub fn parse_escape(data: &[u8], i: usize) -> (r: (usize, Option<(u8, Vec<usize>)>))
    requires
        i < data@.len(),
        data@[i as int] == ESC,
    ensures
        r.0 == esc_end(data@, i as int),
        i < r.0 <= data@.len(),
        match r.1 {
            Some((f, ps)) => esc_has_final(data@, i as int) && f == esc_final(data@, i as int)
                && params_view(ps@) == esc_params(data@, i as int),
            None => !esc_has_final(data@, i as int),
        },
{
    let n = data.len();
    if i + 1 < n && data[i + 1] == 0x5D {
        let mut j = i + 2;
        while j < n
            invariant
                n == data@.len(),
                i + 2 <= j <= n,
                is_osc(data@, i as int),
                osc_end(data@, j as int) == osc_end(data@, i + 2),
            decreases n - j,
        {
            if data[j] == 0x07 {
                return (j + 1, None);
            }
            if data[j] == ESC && j + 1 < n && data[j + 1] == 0x5C {
                return (j + 2, None);
            }
            j = j + 1;
        }
        return (n, None);
    }
    if !(i + 1 < n && data[i + 1] == 0x5B) {
        return (i + 1, None);
    }
    let mut k = i + 2;
    if k < n && data[k] == 0x3F {
        k = k + 1;
    }
    let mut m = k;
    while m < n && (data[m] == 0x3B || (0x30 <= data[m] && data[m] <= 0x39))
        invariant
            n == data@.len(),
            k <= m <= n,
            param_end(data@, m as int) == param_end(data@, k as int),
            forall|x: int| k <= x < m ==> is_param_byte(#[trigger] data@[x]),
        decreases n - m,
    {
        m = m + 1;
    }
    let ps = parse_params_exec(data, k, m);
    if m >= n {
        return (m, None);
    }
    (m + 1, Some((data[m], ps)))
}

impl TerminalBuffer {
    fn clamp_col_to_line(&mut self)
        ensures final(self)@ == clamp_col(old(self)@),
    {
        let row = self.cursor.row;
        self.ensure_line(row);
        let len = self.lines[row].len();
        if self.cursor.col > len {
            self.cursor.col = len;
        }
    }

    /// The effect of a CSI sequence with final byte `f` and parameters `params`.
    pub fn apply_csi(&mut self, f: u8, params: &Vec<usize>)
        requires spec_csi_ok(old(self)@, f, params_view(params@)),
        ensures final(self)@ == spec_apply_csi(old(self)@, f, params_view(params@)),
    {
        let ghost ps = params_view(params@);
        let first = if params.len() == 0 { None } else { Some(params[0]) };
        if f == 0x44 {
            let steps = match first { Some(p) => p, None => 1 };
            self.cursor.move_left(steps);
        } else if f == 0x43 {
            let steps = match first { Some(p) => p, None => 1 };
            self.cursor.move_right(steps);
        } else if f == 0x41 {
            let steps = match first { Some(p) => p, None => 1 };
            self.cursor.move_up(steps);
            self.clamp_col_to_line();
            assert(self@ == spec_apply_csi(old(self)@, f, ps));
        } else if f == 0x42 {
            let steps = match first { Some(p) => p, None => 1 };
            self.cursor.move_down(steps);
            self.clamp_col_to_line();
            assert(self@ == spec_apply_csi(old(self)@, f, ps));
        } else if f == 0x73 {
            self.cursor.save_position();
        } else if f == 0x75 {
            self.cursor.restore_position();
        } else if f == 0x4B {
            let p = match first { Some(p) => p, None => 0 };
            let row = self.cursor.row;
            let col = self.cursor.col;
            if p == 0 || p == 1 || p == 2 {
                self.ensure_line(row);
                let ghost ls = self@.lines;
                let mut line = take_line(&mut self.lines, row);
                let ghost l0 = line@;
                assert(l0 == ls[row as int]);
                assert(ls == ensure(old(self)@.lines, row as int));
                if p == 0 {
                    if col < line.len() {
                        line.truncate(col);
                    }
                    assert(line@ =~= cut_at(l0, col as int));
                } else if p == 1 {
                    let keep = if col < line.len() {
                        crate::text::slice_to_vec(line.as_slice(), col, line.len())
                    } else {
                        Vec::new()
                    };
                    line = keep;
                    assert(line@ =~= keep_from(l0, col as int));
                    self.cursor.col = 0;
                } else {
                    line.clear();
                    self.cursor.col = 0;
                    assert(line@ =~= Seq::<char>::empty());
                }
                let ghost nl = line@;
                put_line(&mut self.lines, row, line);
                assert(self@.lines =~= ls.update(row as int, nl));
                assert(self@ == spec_apply_csi(old(self)@, f, ps));
            }
        } else if f == 0x4A {
            let p = match first { Some(p) => p, None => 0 };
            let row = self.cursor.row;
            let col = self.cursor.col;
            if p == 0 || p == 1 {
                self.ensure_line(row);
                let ghost ls = self@.lines;
                let mut line = take_line(&mut self.lines, row);
                let ghost l0 = line@;
                assert(l0 == ls[row as int]);
                if p == 0 {
                    if col < line.len() {
                        line.truncate(col);
                    }
                    assert(line@ =~= cut_at(l0, col as int));
                    put_line(&mut self.lines, row, line);
                    let ghost before = self.lines@;
                    let n = self.lines.len();
                    assert(row < n);
                    self.lines.truncate(row + 1);
                    assert(lines_view(self.lines@) =~= lines_view(before).take(row + 1));
                    assert(lines_view(before) =~= ls.update(row as int, cut_at(l0, col as int)));
                    assert(self@ == spec_apply_csi(old(self)@, f, ps));
                } else {
                    let keep = if col < line.len() {
                        crate::text::slice_to_vec(line.as_slice(), col, line.len())
                    } else {
                        Vec::new()
                    };
                    assert(keep@ =~= keep_from(l0, col as int));
                    put_line(&mut self.lines, row, keep);
                    assert(lines_view(self.lines@) =~= ls.update(row as int, keep_from(l0, col as int)));
                    let ghost before = self.lines@;
                    let tail = self.lines.split_off(row);
                    self.lines = tail;
                    assert(lines_view(self.lines@) =~= lines_view(before).skip(row as int));
                    self.cursor.row = 0;
                    assert(self@ == spec_apply_csi(old(self)@, f, ps));
                }
            } else if p == 2 {
                let mut fresh: Vec<Vec<char>> = Vec::new();
                let e: Vec<char> = Vec::new();
                fresh.push(e);
                self.lines = fresh;
                assert(lines_view(self.lines@) =~= seq![seq![]]);
                self.cursor.set_position(0, 0);
                assert(self@ == spec_apply_csi(old(self)@, f, ps));
            }
        } else if f == 0x48 {
            let row = if params.len() == 0 || params[0] == 0 { 0 } else { params[0] - 1 };
            let col = if params.len() >= 2 {
                if params[1] == 0 { 0 } else { params[1] - 1 }
            } else if params.len() == 1 {
                self.cursor.col
            } else {
                0
            };
            self.cursor.set_position(row, col);
            assert(self@ == spec_apply_csi(old(self)@, f, ps));
        }
    }

    /// Whether `apply_csi` keeps the cursor within `usize`.
    pub fn csi_fits(&self, f: u8, params: &Vec<usize>) -> (r: bool)
        ensures r == spec_csi_ok(self@, f, params_view(params@)),
    {
        let steps = if params.len() == 0 { 1 } else { params[0] };
        if f == 0x43 {
            steps <= usize::MAX - self.cursor.col
        } else if f == 0x42 {
            steps <= usize::MAX - self.cursor.row
        } else {
            true
        }
    }
}

/// Whether `data` is valid UTF-8.
fn is_valid_utf8(data: &[u8]) -> (r: bool)
    ensures r == valid_utf8(data@),
{
    crate::logfmt::utf8_text(data).is_some()
}

/// The character of a Unicode scalar value.
fn char_from_scalar(u: u32) -> (c: char)
    requires is_scalar(u),
    ensures c == u as char,
{
    match crate::jsonl::char_from_u32(u) {
        Some(c) => c,
        None => ' ',
    }
}

/// Decodes the character at `pos` of valid UTF-8 `data`.
fn decode_at(data: &[u8], pos: usize) -> (r: (char, usize))
    requires
        valid_utf8(data@),
        pos < data@.len(),
        !is_continuation_byte(data@[pos as int]),
    ensures
        r.0 == char_at(data@, pos as int),
        r.1 == char_width_at(data@, pos as int),
        1 <= r.1,
        pos + r.1 <= data@.len(),
{
    let ghost rest = data@.subrange(pos as int, data@.len() as int);
    proof {
        is_char_boundary_iff_not_is_continuation_byte(data@, pos as int);
        valid_utf8_split(data@, pos as int);
        assert(valid_first_scalar(rest));
    }
    let b0 = data[pos];
    assert(rest[0] == b0);
    if b0 <= 0x7F {
        let u = (b0 & 0x7F) as u32;
        assert(u <= 0x7F) by (bit_vector) requires u == (b0 & 0x7F) as u32;
        (char_from_scalar(u), 1)
    } else if 0xC0 <= b0 && b0 <= 0xDF {
        let b1 = data[pos + 1];
        assert(rest[1] == b1);
        let u = ((b0 & 0x1F) as u32) << 6 | ((b1 & 0x3F) as u32);
        assert(u <= 0x7FF) by (bit_vector) requires u == ((b0 & 0x1F) as u32) << 6 | ((b1 & 0x3F) as u32);
        (char_from_scalar(u), 2)
    } else if 0xE0 <= b0 && b0 <= 0xEF {
        let b1 = data[pos + 1];
        let b2 = data[pos + 2];
        assert(rest[1] == b1 && rest[2] == b2);
        let u = ((b0 & 0x0F) as u32) << 12 | ((b1 & 0x3F) as u32) << 6 | ((b2 & 0x3F) as u32);
        assert(u <= 0xFFFF) by (bit_vector)
            requires u == ((b0 & 0x0F) as u32) << 12 | ((b1 & 0x3F) as u32) << 6 | ((b2 & 0x3F) as u32);
        (char_from_scalar(u), 3)
    } else {
        let b1 = data[pos + 1];
        let b2 = data[pos + 2];
        let b3 = data[pos + 3];
        assert(rest[1] == b1 && rest[2] == b2 && rest[3] == b3);
        let u = ((b0 & 0x07) as u32) << 18 | ((b1 & 0x3F) as u32) << 12 | ((b2 & 0x3F) as u32) << 6
            | ((b3 & 0x3F) as u32);
        (char_from_scalar(u), 4)
    }
}

impl TerminalBuffer {
    /// Processes the escape sequence starting at `i` and returns the index
    /// after it (or `i` itself when `data[i]` is not ESC).
    pub fn process_ansi_escape(&mut self, data: &[u8], i: usize) -> (r: usize)
        requires
            i < data@.len() && data@[i as int] == ESC ==> spec_esc_ok(old(self)@, data@, i as int),
        ensures
            if i < data@.len() && data@[i as int] == ESC {
                r == esc_end(data@, i as int) && final(self)@ == spec_apply_esc(old(self)@, data@, i as int)
            } else {
                r == i && final(self)@ == old(self)@
            },
    {
        if i >= data.len() || data[i] != ESC {
            return i;
        }
        let (end, csi) = parse_escape(data, i);
        match csi {
            Some((f, ps)) => self.apply_csi(f, &ps),
            None => {},
        }
        end
    }

    /// Replays valid UTF-8 `data` from `pos`; stops and reports `false` at the
    /// first step that would move the cursor past `usize::MAX` or resume
    /// inside a multi-byte character.
    fn run_text(&mut self, data: &[u8]) -> (ok: bool)
        requires valid_utf8(data@),
        ensures
            ok == spec_text_ok(old(self)@, data@, 0),
            ok ==> final(self)@ == spec_run_text(old(self)@, data@, 0),
    {
        let n = data.len();
        let mut pos: usize = 0;
        while pos < n
            invariant
                n == data@.len(),
                valid_utf8(data@),
                pos <= n,
                spec_text_ok(old(self)@, data@, 0) == spec_text_ok(self@, data@, pos as int),
                spec_run_text(old(self)@, data@, 0) == spec_run_text(self@, data@, pos as int),
            decreases n - pos,
        {
            if data[pos] == ESC {
                let (end, csi) = parse_escape(data, pos);
                match csi {
                    Some((f, ps)) => {
                        if !self.csi_fits(f, &ps) {
                            return false;
                        }
                        self.apply_csi(f, &ps);
                    },
                    None => {},
                }
                pos = end;
            } else {
                if is_continuation_byte_exec(data[pos]) {
                    return false;
                }
                let (ch, w) = decode_at(data, pos);
                if !self.char_fits(ch) {
                    return false;
                }
                self.apply_char(ch);
                pos = pos + w;
            }
        }
        true
    }

    /// Replays `data` that is not valid UTF-8, byte by byte.
    fn run_bytes(&mut self, data: &[u8]) -> (ok: bool)
        ensures
            ok == spec_bytes_ok(old(self)@, data@, 0),
            ok ==> final(self)@ == spec_run_bytes(old(self)@, data@, 0),
    {
        let n = data.len();
        let mut i: usize = 0;
        while i < n
            invariant
                n == data@.len(),
                i <= n,
                spec_bytes_ok(old(self)@, data@, 0) == spec_bytes_ok(self@, data@, i as int),
                spec_run_bytes(old(self)@, data@, 0) == spec_run_bytes(self@, data@, i as int),
            decreases n - i,
        {
            let b = data[i];
            if b == ESC {
                let (end, csi) = parse_escape(data, i);
                match csi {
                    Some((f, ps)) => {
                        if !self.csi_fits(f, &ps) {
                            return false;
                        }
                        self.apply_csi(f, &ps);
                    },
                    None => {},
                }
                i = end;
            } else {
                if b == 0x08 {
                    self.backspace();
                } else if b == 0x0D {
                    self.cursor.col = 0;
                } else if b == 0x0A {
                    if self.cursor.row == usize::MAX {
                        return false;
                    }
                    self.newline();
                }
                i = i + 1;
            }
        }
        true
    }

    /// Replays captured output: as text when it is valid UTF-8 (printable
    /// characters are written at the cursor), otherwise byte by byte (only
    /// escapes, backspace, carriage return and line feed act).
    pub fn process_data(&mut self, data: &[u8])
        requires spec_process_ok(old(self)@, data@),
        ensures final(self)@ == spec_process(old(self)@, data@),
    {
        if is_valid_utf8(data) {
            let _ = self.run_text(data);
        } else {
            let _ = self.run_bytes(data);
        }
    }

    /// A copy of the screen.
    pub fn snapshot(&self) -> (r: TerminalBuffer)
        ensures r@ == self@,
    {
        let mut lines: Vec<Vec<char>> = Vec::new();
        let n = self.lines.len();
        let mut i: usize = 0;
        while i < n
            invariant
                n == self.lines@.len(),
                i <= n,
                lines_view(lines@) =~= lines_view(self.lines@).take(i as int),
            decreases n - i,
        {
            let l = crate::text::slice_to_vec(self.lines[i].as_slice(), 0, self.lines[i].len());
            assert(l@ =~= self.lines@[i as int]@);
            let ghost prev = lines@;
            lines.push(l);
            assert(lines_view(lines@) =~= lines_view(prev).push(l@));
            assert(lines_view(lines@) =~= lines_view(self.lines@).take(i + 1));
            i = i + 1;
        }
        assert(lines_view(self.lines@).take(n as int) =~= lines_view(self.lines@));
        TerminalBuffer {
            lines,
            cursor: Cursor {
                row: self.cursor.row,
                col: self.cursor.col,
                saved_row: self.cursor.saved_row,
                saved_col: self.cursor.saved_col,
            },
        }
    }

    /// `process_data` on input where it stays within bounds: returns `false`
    /// and leaves the screen unchanged where the replay would move the cursor
    /// past `usize::MAX` or resume inside a multi-byte character.
    pub fn process_data_checked(&mut self, data: &[u8]) -> (ok: bool)
        ensures
            ok == spec_process_ok(old(self)@, data@),
            final(self)@ == if ok { spec_process(old(self)@, data@) } else { old(self)@ },
    {
        let mut copy = self.snapshot();
        let ok = if is_valid_utf8(data) { copy.run_text(data) } else { copy.run_bytes(data) };
        if ok {
            *self = copy;
        }
        ok
    }
}

fn is_continuation_byte_exec(b: u8) -> (r: bool)
    ensures r == is_continuation_byte(b),
{
    0x80 <= b && b <= 0xBF
}

/// Erasing the whole line (`ESC[2K`) leaves the cursor's line empty and the
/// cursor at column 0 of the same row, whatever the column was before; the
/// other lines are kept.
pub proof fn lemma_erase_whole_line(t: Term, ps: Seq<int>)
    requires
        0 <= t.row,
        0 <= t.col,
        ps.len() > 0,
        ps[0] == 2,
    ensures
        ({
            let r = spec_apply_csi(t, 0x4B, ps);
            &&& r.lines.len() > t.row
            &&& r.lines[t.row] == Seq::<char>::empty()
            &&& r.col == 0
            &&& r.row == t.row
            &&& forall|k: int| 0 <= k < t.lines.len() && k != t.row ==> r.lines[k] == t.lines[k]
        }),
{
    let ls = ensure(t.lines, t.row);
    assert forall|k: int| 0 <= k < t.lines.len() implies ls[k] == t.lines[k] by {}
}


/// Erasing to the end of the line (`ESC[K` or `ESC[0K`) keeps the cursor
/// where it is and keeps exactly the characters before it on its line.
pub proof fn lemma_erase_to_line_end(t: Term, ps: Seq<int>)
    requires
        0 <= t.row,
        0 <= t.col,
        ps.len() == 0 || ps[0] == 0,
    ensures
        ({
            let r = spec_apply_csi(t, 0x4B, ps);
            let old_line = if t.row < t.lines.len() { t.lines[t.row] } else { Seq::<char>::empty() };
            let n = if t.col < old_line.len() { t.col } else { old_line.len() as int };
            &&& r.lines.len() > t.row
            &&& r.lines[t.row] == old_line.take(n)
            &&& r.row == t.row && r.col == t.col
            &&& forall|k: int| 0 <= k < t.lines.len() && k != t.row ==> r.lines[k] == t.lines[k]
        }),
{
    let ls = ensure(t.lines, t.row);
    let old_line = if t.row < t.lines.len() { t.lines[t.row] } else { Seq::<char>::empty() };
    assert(ls[t.row] == old_line);
    let n = if t.col < old_line.len() { t.col } else { old_line.len() as int };
    assert(cut_at(old_line, t.col) =~= old_line.take(n));
    assert forall|k: int| 0 <= k < t.lines.len() implies ls[k] == t.lines[k] by {}
}

/// Erasing the whole screen (`ESC[2J`) leaves one empty line and the cursor
/// at the top left, whatever was there before.
pub proof fn lemma_erase_whole_screen(t: Term, ps: Seq<int>)
    requires
        ps.len() > 0,
        ps[0] == 2,
    ensures
        spec_apply_csi(t, 0x4A, ps).lines == seq![Seq::<char>::empty()],
        spec_apply_csi(t, 0x4A, ps).row == 0,
        spec_apply_csi(t, 0x4A, ps).col == 0,
{
}

} // verus!
