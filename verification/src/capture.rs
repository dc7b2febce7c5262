//! The terminal capture: its command line, and the session logic that turns
//! what happens on the terminal (input, output, resizes, flush requests, the
//! end of the child process) into capture-log records and an exit code.

use vstd::prelude::*;
use vstd::string::*;
use crate::logfmt::{
    data_line, exit_code_line, exit_signal_line, push_str, spec_json_safe, split_lines,
    write_exit_code, write_exit_signal, write_stdin, write_stdout, TextBuffer,
};
use crate::text::{chars_of, find_char, parse_unsigned_chars, parse_unsigned_upto, slice_to_vec, string_from_chars};

verus! {

/// How the child process ended.
#[derive(Debug, Clone, Copy, PartialEq, Eq, Structural)]
pub enum ProcessStatus {
    Exited(i32),
    Signaled(i32),
}

/// The exit code the capture ends with: the child's code, or 128 plus the
/// signal that killed it.
pub open spec fn spec_exit_code(s: ProcessStatus) -> int {
    match s {
        ProcessStatus::Exited(c) => c as int,
        ProcessStatus::Signaled(sig) => 128 + sig,
    }
}

/// Capture options.
#[derive(Debug, Clone)]
pub struct CaptureConfig {
    /// Log file (empty: a name is chosen from the time).
    pub output: String,
    pub append: bool,
    /// Keep keyboard input out of the log.
    pub no_stdin: bool,
    /// Largest read, in bytes.
    pub max_chunk: usize,
    pub cwd: Option<String>,
    pub env: Vec<(String, String)>,
    /// A FIFO whose data is fed to the child as input.
    pub input_fifo: Option<String>,
}

/// Capture options by their parts.
pub struct ConfigView {
    pub output: Seq<char>,
    pub append: bool,
    pub no_stdin: bool,
    pub max_chunk: nat,
    pub cwd: Option<Seq<char>>,
    pub env: Seq<(Seq<char>, Seq<char>)>,
    pub input_fifo: Option<Seq<char>>,
}

pub open spec fn opt_chars(v: Option<String>) -> Option<Seq<char>> {
    match v { Some(s) => Some(s@), None => None }
}

pub open spec fn config_view(c: CaptureConfig) -> ConfigView {
    ConfigView {
        output: c.output@,
        append: c.append,
        no_stdin: c.no_stdin,
        max_chunk: c.max_chunk as nat,
        cwd: opt_chars(c.cwd),
        env: c.env@.map_values(|p: (String, String)| (p.0@, p.1@)),
        input_fifo: opt_chars(c.input_fifo),
    }
}

pub open spec fn default_config_view() -> ConfigView {
    ConfigView {
        output: seq![],
        append: false,
        no_stdin: false,
        max_chunk: 32768,
        cwd: None,
        env: seq![],
        input_fifo: None,
    }
}

impl CaptureConfig {
    /// The defaults: no output chosen yet, truncate, log input, 32 KiB reads.
    pub fn default_config() -> (r: CaptureConfig)
        ensures config_view(r) == default_config_view(),
    {
        let r = CaptureConfig {
            output: String::new(),
            append: false,
            no_stdin: false,
            max_chunk: 32768,
            cwd: None,
            env: Vec::new(),
            input_fifo: None,
        };
        assert(config_view(r).env =~= Seq::<(Seq<char>, Seq<char>)>::empty());
        r
    }
}

pub open spec fn requires_argument() -> Seq<char> {
    "Option requires an argument"@
}

/// Index of the first `=` in `s`, if any.
pub open spec fn first_eq(s: Seq<char>) -> Option<int> {
    if exists|k: int| 0 <= k < s.len() && s[k] == '=' {
        Some(choose|k: int| 0 <= k < s.len() && s[k] == '=' && forall|j: int| 0 <= j < k ==> s[j] != '=')
    } else {
        None
    }
}

/// The command line read from argument `i` on: the options so far in `c`;
/// the result is the options and where the command starts, or the usage
/// error's message and exit code.
pub open spec fn spec_parse_from(args: Seq<Seq<char>>, i: int, c: ConfigView) -> Result<(ConfigView, Option<int>), (Seq<char>, int)>
    decreases args.len() - i,
{
    if i < 0 || i >= args.len() {
        Ok((c, None))
    } else {
        let a = args[i];
        if a == "-o"@ || a == "--out"@ {
            if i + 1 >= args.len() { Err((requires_argument(), 64)) }
            else { spec_parse_from(args, i + 2, ConfigView { output: args[i + 1], ..c }) }
        } else if a == "--append"@ {
            spec_parse_from(args, i + 1, ConfigView { append: true, ..c })
        } else if a == "--no-stdin"@ {
            spec_parse_from(args, i + 1, ConfigView { no_stdin: true, ..c })
        } else if a == "--max-chunk"@ {
            if i + 1 >= args.len() { Err((requires_argument(), 64)) }
            else {
                match parse_unsigned_upto(args[i + 1], usize::MAX as nat) {
                    Some(n) => spec_parse_from(args, i + 2, ConfigView { max_chunk: n, ..c }),
                    None => Err(("Invalid max-chunk value"@, 64)),
                }
            }
        } else if a == "--cwd"@ {
            if i + 1 >= args.len() { Err((requires_argument(), 64)) }
            else { spec_parse_from(args, i + 2, ConfigView { cwd: Some(args[i + 1]), ..c }) }
        } else if a == "--env"@ {
            if i + 1 >= args.len() { Err((requires_argument(), 64)) }
            else {
                let e = args[i + 1];
                match first_eq(e) {
                    Some(k) => spec_parse_from(args, i + 2, ConfigView { env: c.env.push((e.take(k), e.skip(k + 1))), ..c }),
                    None => Err(("Invalid env format: "@ + e, 64)),
                }
            }
        } else if a == "--input-fifo"@ {
            if i + 1 >= args.len() { Err((requires_argument(), 64)) }
            else { spec_parse_from(args, i + 2, ConfigView { input_fifo: Some(args[i + 1]), ..c }) }
        } else if a == "--"@ {
            Ok((c, Some(i + 1)))
        } else if a.len() > 0 && a[0] == '-' {
            Err(("Unknown option: "@ + a, 64))
        } else {
            Ok((c, Some(i)))
        }
    }
}

/// The command (what follows the options), if any.
pub open spec fn command_from(args: Seq<Seq<char>>, start: Option<int>) -> Option<Seq<Seq<char>>> {
    match start {
        Some(s) => if s < args.len() { Some(args.skip(s)) } else { None },
        None => None,
    }
}

pub open spec fn strs(v: Seq<String>) -> Seq<Seq<char>> {
    v.map_values(|s: String| s@)
}

fn eq_lit(s: &String, lit: &str) -> (r: bool)
    ensures r == (s@ == lit@),
{
    *s == String::from_str(lit)
}

fn error_with(prefix: &str, s: &String) -> (r: (String, i32))
    ensures r.0@ == prefix@ + s@, r.1 == 64,
{
    let mut v = chars_of(prefix);
    push_str(&mut v, s.as_str());
    (string_from_chars(v.as_slice()), 64)
}

/// Reads the capture's command line (`args[0]` is the program): the options
/// and the command to run (`None`: the user's shell), or a usage error's
/// message with exit code 64.
pub fn parse_capture_args(args: &Vec<String>) -> (r: Result<(CaptureConfig, Option<Vec<String>>), (String, i32)>)
    ensures
        match spec_parse_from(strs(args@), 1, default_config_view()) {
            Ok((c, start)) => r matches Ok((cfg, cmd)) && config_view(cfg) == c
                && match command_from(strs(args@), start) {
                    Some(v) => cmd matches Some(x) && strs(x@) == v,
                    None => cmd is None,
                },
            Err((m, code)) => r matches Err((msg, k)) && msg@ == m && k == code,
        },
{
    let ghost av = strs(args@);
    let mut cfg = CaptureConfig::default_config();
    let mut i: usize = 1;
    let mut start: Option<usize> = None;
    while i < args.len()
        invariant_except_break
            1 <= i,
            av == strs(args@),
            start is None,
            spec_parse_from(av, i as int, config_view(cfg)) == spec_parse_from(av, 1, default_config_view()),
        ensures
            av == strs(args@),
            spec_parse_from(av, 1, default_config_view()) == Ok::<(ConfigView, Option<int>), (Seq<char>, int)>((config_view(cfg), match start { Some(s) => Some(s as int), None => None })),
            start matches Some(s) ==> s <= args@.len(),
        decreases args.len() - i,
    {
        let a = &args[i];
        assert(av[i as int] == a@);
        if eq_lit(a, "-o") || eq_lit(a, "--out") {
            if i + 1 >= args.len() {
                return Err((String::from_str("Option requires an argument"), 64));
            }
            assert(av[i + 1] == args@[i + 1]@);
            cfg.output = args[i + 1].clone();
            i = i + 2;
        } else if eq_lit(a, "--append") {
            cfg.append = true;
            i = i + 1;
        } else if eq_lit(a, "--no-stdin") {
            cfg.no_stdin = true;
            i = i + 1;
        } else if eq_lit(a, "--max-chunk") {
            if i + 1 >= args.len() {
                return Err((String::from_str("Option requires an argument"), 64));
            }
            assert(av[i + 1] == args@[i + 1]@);
            let v = chars_of(args[i + 1].as_str());
            match parse_unsigned_chars(v.as_slice(), usize::MAX as u64) {
                Some(n) => {
                    cfg.max_chunk = n as usize;
                },
                None => {
                    return Err((String::from_str("Invalid max-chunk value"), 64));
                },
            }
            i = i + 2;
        } else if eq_lit(a, "--cwd") {
            if i + 1 >= args.len() {
                return Err((String::from_str("Option requires an argument"), 64));
            }
            assert(av[i + 1] == args@[i + 1]@);
            cfg.cwd = Some(args[i + 1].clone());
            i = i + 2;
        } else if eq_lit(a, "--env") {
            if i + 1 >= args.len() {
                return Err((String::from_str("Option requires an argument"), 64));
            }
            assert(av[i + 1] == args@[i + 1]@);
            let e = chars_of(args[i + 1].as_str());
            match find_char(e.as_slice(), 0, '=') {
                Some(k) => {
                    proof {
                        assert(first_eq(e@) == Some(k as int)) by {
                            assert(e@[k as int] == '=');
                            let w = choose|w: int| 0 <= w < e@.len() && e@[w] == '=' && forall|j: int| 0 <= j < w ==> e@[j] != '=';
                            if w < k { assert(e@[w] != '='); }
                            if w > k { assert(e@[k as int] != '='); }
                        }
                    }
                    assert(k < e.len());
                    let key = string_from_chars(slice_to_vec(e.as_slice(), 0, k).as_slice());
                    let value = string_from_chars(slice_to_vec(e.as_slice(), k + 1, e.len()).as_slice());
                    let ghost before = cfg.env@;
                    cfg.env.push((key, value));
                    proof {
                        assert(config_view(cfg).env =~= before.map_values(|p: (String, String)| (p.0@, p.1@)).push((e@.take(k as int), e@.skip(k + 1))));
                    }
                },
                None => {
                    return Err(error_with("Invalid env format: ", &args[i + 1]));
                },
            }
            i = i + 2;
        } else if eq_lit(a, "--input-fifo") {
            if i + 1 >= args.len() {
                return Err((String::from_str("Option requires an argument"), 64));
            }
            assert(av[i + 1] == args@[i + 1]@);
            cfg.input_fifo = Some(args[i + 1].clone());
            i = i + 2;
        } else if eq_lit(a, "--") {
            start = Some(i + 1);
            break;
        } else {
            let ac = chars_of(a.as_str());
            if ac.len() > 0 && ac[0] == '-' {
                return Err(error_with("Unknown option: ", a));
            }
            start = Some(i);
            break;
        }
    }
    let cmd = match start {
        Some(s) => {
            if s < args.len() {
                let mut v: Vec<String> = Vec::new();
                let mut k = s;
                assert(strs(v@) =~= av.skip(s as int).take(0));
                while k < args.len()
                    invariant
                        s <= k <= args@.len(),
                        av == strs(args@),
                        strs(v@) == av.skip(s as int).take(k - s),
                    decreases args.len() - k,
                {
                    let ghost before = v@;
                    v.push(args[k].clone());
                    proof {
                        assert(strs(v@) =~= strs(before).push(args@[k as int]@));
                        assert(av.skip(s as int).take(k + 1 - s) =~= av.skip(s as int).take(k - s).push(av[k as int]));
                    }
                    k = k + 1;
                }
                assert(av.skip(s as int).take(args@.len() - s) =~= av.skip(s as int));
                Some(v)
            } else {
                None
            }
        },
        None => None,
    };
    Ok((cfg, cmd))
}

/// The records of chunks of data of one kind, in order.
pub open spec fn records(t_ms: int, kind: Seq<char>, chunks: Seq<Seq<u8>>) -> Seq<char>
    decreases chunks.len(),
{
    if chunks.len() == 0 { seq![] } else { records(t_ms, kind, chunks.drop_last()) + data_line(t_ms, kind, chunks.last()) }
}

/// Whether a line buffer treats its data as text once `data` arrives: a new
/// run (nothing held back) is text when `data` is safe as JSON text.
pub open spec fn mode_after(b: TextBuffer, data: Seq<u8>) -> bool {
    if b.pending().len() == 0 { spec_json_safe(data) } else { b.text_mode() }
}

/// What a line buffer hands out when `data` arrives (see `TextBuffer::append`).
pub open spec fn ready_chunks(b: TextBuffer, data: Seq<u8>) -> Seq<Seq<u8>> {
    if mode_after(b, data) { split_lines(b.pending() + data).0 } else { seq![data] }
}

/// What a line buffer holds back after `data` arrives: the unfinished last
/// line of text, nothing of binary data.
pub open spec fn pending_after(b: TextBuffer, data: Seq<u8>) -> Seq<u8> {
    if mode_after(b, data) { split_lines(b.pending() + data).1 } else { seq![] }
}

fn write_records(log: &mut String, t_ms: i64, stdout: bool, chunks: &Vec<Vec<u8>>)
    ensures
        final(log)@ == old(log)@ + records(t_ms as int, if stdout { "stdout"@ } else { "stdin"@ }, chunks@.map_values(|c: Vec<u8>| c@)),
{
    let ghost l0 = log@;
    let ghost kind = if stdout { "stdout"@ } else { "stdin"@ };
    let mut k: usize = 0;
    assert(chunks@.map_values(|c: Vec<u8>| c@).take(0) =~= Seq::<Seq<u8>>::empty());
    while k < chunks.len()
        invariant
            k <= chunks@.len(),
            kind == (if stdout { "stdout"@ } else { "stdin"@ }),
            log@ == l0 + records(t_ms as int, kind, chunks@.map_values(|c: Vec<u8>| c@).take(k as int)),
        decreases chunks.len() - k,
    {
        if stdout {
            write_stdout(log, t_ms, chunks[k].as_slice());
        } else {
            write_stdin(log, t_ms, chunks[k].as_slice());
        }
        proof {
            let cv = chunks@.map_values(|c: Vec<u8>| c@);
            assert(cv.take(k + 1).drop_last() =~= cv.take(k as int));
            assert(cv.take(k + 1).last() == chunks@[k as int]@);
        }
        k = k + 1;
    }
    assert(chunks@.map_values(|c: Vec<u8>| c@).take(chunks@.len() as int) =~= chunks@.map_values(|c: Vec<u8>| c@));
}

/// The capture's buffers: keyboard input, FIFO input and terminal output are
/// each held back until a line is complete (see `TextBuffer`).
pub struct CaptureSession {
    pub stdin_text: TextBuffer,
    pub fifo_text: TextBuffer,
    pub stdout_text: TextBuffer,
    /// Keep keyboard input out of the log.
    pub no_stdin: bool,
}

impl CaptureSession {
    pub open spec fn wf(&self) -> bool {
        self.stdin_text.wf() && self.fifo_text.wf() && self.stdout_text.wf()
    }

    pub fn new(no_stdin: bool) -> (r: CaptureSession)
        ensures
            r.wf(),
            r.no_stdin == no_stdin,
            r.stdin_text.pending().len() == 0,
            r.fifo_text.pending().len() == 0,
            r.stdout_text.pending().len() == 0,
    {
        CaptureSession { stdin_text: TextBuffer::new(), fifo_text: TextBuffer::new(), stdout_text: TextBuffer::new(), no_stdin }
    }

    /// Writes out everything held back: keyboard input (unless kept out of
    /// the log), FIFO input, then terminal output.
    pub fn flush_all(&mut self, log: &mut String, t_ms: i64)
        requires old(self).wf(),
        ensures
            final(self).wf(),
            final(self).no_stdin == old(self).no_stdin,
            final(self).stdin_text.pending().len() == 0,
            final(self).fifo_text.pending().len() == 0,
            final(self).stdout_text.pending().len() == 0,
            final(log)@ == old(log)@
                + (if old(self).stdin_text.pending().len() > 0 && !old(self).no_stdin { data_line(t_ms as int, "stdin"@, old(self).stdin_text.pending()) } else { seq![] })
                + (if old(self).fifo_text.pending().len() > 0 { data_line(t_ms as int, "stdin"@, old(self).fifo_text.pending()) } else { seq![] })
                + (if old(self).stdout_text.pending().len() > 0 { data_line(t_ms as int, "stdout"@, old(self).stdout_text.pending()) } else { seq![] }),
    {
        let ghost l0 = log@;
        match self.stdin_text.flush() {
            Some(d) => {
                if !self.no_stdin {
                    write_stdin(log, t_ms, d.as_slice());
                }
            },
            None => {},
        }
        let ghost l1 = log@;
        assert(l1 =~= l0 + (if old(self).stdin_text.pending().len() > 0 && !old(self).no_stdin { data_line(t_ms as int, "stdin"@, old(self).stdin_text.pending()) } else { seq![] }));
        match self.fifo_text.flush() {
            Some(d) => write_stdin(log, t_ms, d.as_slice()),
            None => {},
        }
        let ghost l2 = log@;
        assert(l2 =~= l1 + (if old(self).fifo_text.pending().len() > 0 { data_line(t_ms as int, "stdin"@, old(self).fifo_text.pending()) } else { seq![] }));
        match self.stdout_text.flush() {
            Some(d) => write_stdout(log, t_ms, d.as_slice()),
            None => {},
        }
    }

    /// The end of the child: writes out what is held back and the exit
    /// record, and gives the capture's exit code.
    pub fn finalize_and_get_exit_code(&mut self, status: ProcessStatus, log: &mut String, t_ms: i64) -> (code: i32)
        requires
            old(self).wf(),
            status matches ProcessStatus::Signaled(s) ==> s <= i32::MAX - 128,
        ensures
            final(self).wf(),
            code as int == spec_exit_code(status),
            ({
                let before = old(log)@
                    + (if old(self).stdin_text.pending().len() > 0 && !old(self).no_stdin { data_line(t_ms as int, "stdin"@, old(self).stdin_text.pending()) } else { seq![] })
                    + (if old(self).fifo_text.pending().len() > 0 { data_line(t_ms as int, "stdin"@, old(self).fifo_text.pending()) } else { seq![] })
                    + (if old(self).stdout_text.pending().len() > 0 { data_line(t_ms as int, "stdout"@, old(self).stdout_text.pending()) } else { seq![] });
                final(log)@ == before + match status {
                    ProcessStatus::Exited(c) => exit_code_line(t_ms as int, c as int),
                    ProcessStatus::Signaled(s) => exit_signal_line(t_ms as int, s as int),
                }
            }),
    {
        self.flush_all(log, t_ms);
        match status {
            ProcessStatus::Exited(c) => {
                write_exit_code(log, t_ms, c);
                c
            },
            ProcessStatus::Signaled(s) => {
                write_exit_signal(log, t_ms, s);
                128 + s
            },
        }
    }

    /// Keyboard input: the records of what the line buffer hands out (none
    /// when input is kept out of the log).
    pub fn on_stdin(&mut self, data: &[u8], log: &mut String, t_ms: i64)
        requires old(self).wf(),
        ensures
            final(self).wf(),
            final(self).fifo_text == old(self).fifo_text,
            final(self).stdout_text == old(self).stdout_text,
            final(self).no_stdin == old(self).no_stdin,
            old(self).no_stdin ==> final(log)@ == old(log)@ && final(self).stdin_text == old(self).stdin_text,
            !old(self).no_stdin ==> final(log)@ == old(log)@ + records(t_ms as int, "stdin"@, ready_chunks(old(self).stdin_text, data@)),
            !old(self).no_stdin ==> final(self).stdin_text.text_mode() == mode_after(old(self).stdin_text, data@),
            !old(self).no_stdin ==> final(self).stdin_text.pending() == pending_after(old(self).stdin_text, data@),
    {
        if self.no_stdin {
            return;
        }
        let chunks = self.stdin_text.append(data);
        write_records(log, t_ms, false, &chunks);
    }

    /// Input from the FIFO: the records of what its line buffer hands out, as input.
    pub fn on_fifo(&mut self, data: &[u8], log: &mut String, t_ms: i64)
        requires old(self).wf(),
        ensures
            final(self).wf(),
            final(self).stdin_text == old(self).stdin_text,
            final(self).stdout_text == old(self).stdout_text,
            final(self).no_stdin == old(self).no_stdin,
            final(log)@ == old(log)@ + records(t_ms as int, "stdin"@, ready_chunks(old(self).fifo_text, data@)),
            final(self).fifo_text.text_mode() == mode_after(old(self).fifo_text, data@),
            final(self).fifo_text.pending() == pending_after(old(self).fifo_text, data@),
    {
        let chunks = self.fifo_text.append(data);
        write_records(log, t_ms, false, &chunks);
    }

    /// Terminal output: the records of what its line buffer hands out.
    pub fn on_stdout(&mut self, data: &[u8], log: &mut String, t_ms: i64)
        requires old(self).wf(),
        ensures
            final(self).wf(),
            final(self).stdin_text == old(self).stdin_text,
            final(self).fifo_text == old(self).fifo_text,
            final(self).no_stdin == old(self).no_stdin,
            final(log)@ == old(log)@ + records(t_ms as int, "stdout"@, ready_chunks(old(self).stdout_text, data@)),
            final(self).stdout_text.text_mode() == mode_after(old(self).stdout_text, data@),
            final(self).stdout_text.pending() == pending_after(old(self).stdout_text, data@),
    {
        let chunks = self.stdout_text.append(data);
        write_records(log, t_ms, true, &chunks);
    }

    /// The flush asked for by a signal: held-back keyboard input (unless
    /// kept out of the log) and terminal output are written out; FIFO input
    /// stays held back.
    pub fn on_flush_signal(&mut self, log: &mut String, t_ms: i64)
        requires old(self).wf(),
        ensures
            final(self).wf(),
            final(self).no_stdin == old(self).no_stdin,
            final(self).fifo_text == old(self).fifo_text,
            final(self).stdin_text.pending().len() == 0,
            final(self).stdout_text.pending().len() == 0,
            final(log)@ == old(log)@
                + (if old(self).stdin_text.pending().len() > 0 && !old(self).no_stdin { data_line(t_ms as int, "stdin"@, old(self).stdin_text.pending()) } else { seq![] })
                + (if old(self).stdout_text.pending().len() > 0 { data_line(t_ms as int, "stdout"@, old(self).stdout_text.pending()) } else { seq![] }),
    {
        let ghost l0 = log@;
        match self.stdin_text.flush() {
            Some(d) => {
                if !self.no_stdin {
                    write_stdin(log, t_ms, d.as_slice());
                }
            },
            None => {},
        }
        assert(log@ =~= l0 + (if old(self).stdin_text.pending().len() > 0 && !old(self).no_stdin { data_line(t_ms as int, "stdin"@, old(self).stdin_text.pending()) } else { seq![] }));
        match self.stdout_text.flush() {
            Some(d) => write_stdout(log, t_ms, d.as_slice()),
            None => {},
        }
    }

    /// The end of keyboard input: what is held back of it is written out
    /// (unless kept out of the log).
    pub fn on_stdin_eof(&mut self, log: &mut String, t_ms: i64)
        requires old(self).wf(),
        ensures
            final(self).wf(),
            final(self).no_stdin == old(self).no_stdin,
            final(self).fifo_text == old(self).fifo_text,
            final(self).stdout_text == old(self).stdout_text,
            final(self).stdin_text.pending().len() == 0,
            final(log)@ == old(log)@
                + (if old(self).stdin_text.pending().len() > 0 && !old(self).no_stdin { data_line(t_ms as int, "stdin"@, old(self).stdin_text.pending()) } else { seq![] }),
    {
        match self.stdin_text.flush() {
            Some(d) => {
                if !self.no_stdin {
                    write_stdin(log, t_ms, d.as_slice());
                }
            },
            None => {},
        }
    }

    /// The end of the FIFO: what is held back of it is written out, as input.
    pub fn on_fifo_eof(&mut self, log: &mut String, t_ms: i64)
        requires old(self).wf(),
        ensures
            final(self).wf(),
            final(self).no_stdin == old(self).no_stdin,
            final(self).stdin_text == old(self).stdin_text,
            final(self).stdout_text == old(self).stdout_text,
            final(self).fifo_text.pending().len() == 0,
            final(log)@ == old(log)@
                + (if old(self).fifo_text.pending().len() > 0 { data_line(t_ms as int, "stdin"@, old(self).fifo_text.pending()) } else { seq![] }),
    {
        match self.fifo_text.flush() {
            Some(d) => write_stdin(log, t_ms, d.as_slice()),
            None => {},
        }
    }
}

} // verus!
