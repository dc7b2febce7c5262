//! The single `aish` binary: recognising the `ai` entry name, and where a
//! parsed command line is handed on (the `ai` tool, or `aish` with the
//! global options in front of the subcommand and its arguments).

use vstd::prelude::*;
use crate::logfmt::push_str;
use crate::text::{chars_of, split_char, split_on, string_from_chars, vstrs};

verus! {

/// The last component of a path that names something (empty parts and `.`
/// skipped), as `Path::components` yields it from the back.
pub open spec fn last_part(parts: Seq<Seq<char>>) -> Option<Seq<char>>
    decreases parts.len(),
{
    if parts.len() == 0 {
        None
    } else if parts.last().len() == 0 || parts.last() == "."@ {
        last_part(parts.drop_last())
    } else {
        Some(parts.last())
    }
}

/// `Path::file_name`: the last component, unless it is `..`.
pub open spec fn path_file_name(p: Seq<char>) -> Option<Seq<char>> {
    match last_part(split_char(p, '/')) {
        Some(l) => if l == ".."@ { None } else { Some(l) },
        None => None,
    }
}

/// Index of the last `.` in `s`.
pub open spec fn last_dot(s: Seq<char>) -> Option<int>
    decreases s.len(),
{
    if s.len() == 0 {
        None
    } else if s.last() == '.' {
        Some(s.len() - 1)
    } else {
        last_dot(s.drop_last())
    }
}

/// `Path::file_stem` of a file name: the name without its extension (a
/// name whose only dot leads keeps it).
pub open spec fn file_stem(name: Seq<char>) -> Seq<char> {
    match last_dot(name) {
        Some(k) => if k == 0 { name } else { name.take(k) },
        None => name,
    }
}

/// Whether the program was started under the name `ai` (the stem of its
/// path, when the path is valid text).
pub open spec fn spec_invoked_as_ai(argv0: Option<Seq<char>>) -> bool {
    match argv0 {
        Some(a) => match path_file_name(a) {
            Some(n) => file_stem(n) == "ai"@,
            None => false,
        },
        None => false,
    }
}

fn same_text(a: &[char], lit: &str) -> (r: bool)
    ensures r == (a@ == lit@),
{
    let l = chars_of(lit);
    if a.len() != l.len() {
        return false;
    }
    let r = crate::text::starts_with(a, l.as_slice());
    proof {
        if a@ == l@ {
            assert(a@.take(l@.len() as int) =~= a@);
        }
        if r {
            assert(a@ =~= l@);
        }
    }
    r
}

/// The file name of a path (see `path_file_name`).
pub fn file_name_of(path: &str) -> (r: Option<Vec<char>>)
    ensures
        match path_file_name(path@) {
            Some(n) => r matches Some(v) && v@ == n,
            None => r is None,
        },
{
    let c = chars_of(path);
    let parts = split_on(c.as_slice(), '/');
    let ghost pv = vstrs(parts@);
    let mut n = parts.len();
    assert(pv.take(n as int) =~= pv);
    while n > 0 && (parts[n - 1].len() == 0 || same_text(parts[n - 1].as_slice(), "."))
        invariant
            n <= parts@.len(),
            pv == vstrs(parts@),
            last_part(pv.take(n as int)) == last_part(pv),
        decreases n,
    {
        proof {
            assert(pv.take(n as int).drop_last() =~= pv.take(n - 1));
            assert(pv.take(n as int).last() == parts@[n - 1]@);
        }
        n = n - 1;
    }
    if n == 0 {
        return None;
    }
    proof {
        assert(pv.take(n as int).last() == parts@[n - 1]@);
    }
    let last = &parts[n - 1];
    if same_text(last.as_slice(), "..") {
        None
    } else {
        Some(crate::text::slice_to_vec(last.as_slice(), 0, last.len()))
    }
}

/// The stem of a file name (see `file_stem`).
pub fn file_stem_of(name: &[char]) -> (r: Vec<char>)
    ensures r@ == file_stem(name@),
{
    let mut k = name.len();
    assert(name@.take(k as int) =~= name@);
    while k > 0 && name[k - 1] != '.'
        invariant
            k <= name@.len(),
            last_dot(name@.take(k as int)) == last_dot(name@),
        decreases k,
    {
        assert(name@.take(k as int).drop_last() =~= name@.take(k - 1));
        k = k - 1;
    }
    if k == 0 {
        assert(name@.take(0) =~= Seq::<char>::empty());
        crate::text::slice_to_vec(name, 0, name.len())
    } else {
        assert(name@.take(k as int).last() == name@[k - 1]);
        if k - 1 == 0 {
            crate::text::slice_to_vec(name, 0, name.len())
        } else {
            crate::text::slice_to_vec(name, 0, k - 1)
        }
    }
}

/// Whether the program was started as `ai` (see `spec_invoked_as_ai`).
pub fn invoked_as_ai(argv0: Option<&str>) -> (r: bool)
    ensures r == spec_invoked_as_ai(match argv0 { Some(a) => Some(a@), None => None }),
{
    match argv0 {
        Some(a) => match file_name_of(a) {
            Some(n) => {
                let stem = file_stem_of(n.as_slice());
                same_text(stem.as_slice(), "ai")
            },
            None => false,
        },
        None => false,
    }
}

/// The global options handed on to `aish`: `-s DIR`, `-d DIR`, `-v`.
pub open spec fn spec_global_argv(session_dir: Option<Seq<char>>, home_dir: Option<Seq<char>>, verbose: bool) -> Seq<Seq<char>> {
    (match session_dir {
        Some(d) => seq!["-s"@, d],
        None => seq![],
    }) + (match home_dir {
        Some(d) => seq!["-d"@, d],
        None => seq![],
    }) + (if verbose { seq!["-v"@] } else { seq![] })
}

pub open spec fn opt_str(o: Option<&str>) -> Option<Seq<char>> {
    match o {
        Some(s) => Some(s@),
        None => None,
    }
}

pub open spec fn texts(v: Seq<String>) -> Seq<Seq<char>> {
    v.map_values(|s: String| s@)
}

fn push_text(v: &mut Vec<String>, s: &str)
    ensures texts(final(v)@) == texts(old(v)@).push(s@),
{
    let ghost before = v@;
    v.push(String::from_str(s));
    assert(texts(v@) =~= texts(before).push(s@));
}

/// The global options as arguments for `aish`.
pub fn build_global_argv(session_dir: Option<&str>, home_dir: Option<&str>, verbose: bool) -> (r: Vec<String>)
    ensures texts(r@) == spec_global_argv(opt_str(session_dir), opt_str(home_dir), verbose),
{
    let mut v: Vec<String> = Vec::new();
    assert(texts(v@) =~= Seq::<Seq<char>>::empty());
    match session_dir {
        Some(d) => {
            push_text(&mut v, "-s");
            push_text(&mut v, d);
        },
        None => {},
    }
    let ghost a = texts(v@);
    match home_dir {
        Some(d) => {
            push_text(&mut v, "-d");
            push_text(&mut v, d);
        },
        None => {},
    }
    let ghost b = texts(v@);
    if verbose {
        push_text(&mut v, "-v");
    }
    proof {
        assert(b =~= a + (match opt_str(home_dir) { Some(d) => seq!["-d"@, d], None => Seq::<Seq<char>>::empty() }));
    }
    assert(texts(v@) =~= spec_global_argv(opt_str(session_dir), opt_str(home_dir), verbose));
    v
}

/// Where a command line goes.
pub enum Dispatch {
    /// Show the usage text and end with code 0.
    Help,
    /// Run the `ai` tool with these arguments.
    Ai(Vec<String>),
    /// Run `aish` with these arguments.
    Aish(Vec<String>),
}

pub enum DispatchView {
    Help,
    Ai(Seq<Seq<char>>),
    Aish(Seq<Seq<char>>),
}

pub open spec fn dispatch_view(d: Dispatch) -> DispatchView {
    match d {
        Dispatch::Help => DispatchView::Help,
        Dispatch::Ai(v) => DispatchView::Ai(texts(v@)),
        Dispatch::Aish(v) => DispatchView::Aish(texts(v@)),
    }
}

/// The arguments after the first one (from index `i`) equal to `sub`
/// (none when there is no such argument).
pub open spec fn after_first(args: Seq<Seq<char>>, sub: Seq<char>, i: int) -> Seq<Seq<char>>
    decreases args.len() - i,
{
    if i < 0 || i >= args.len() {
        seq![]
    } else if args[i] == sub {
        args.skip(i + 1)
    } else {
        after_first(args, sub, i + 1)
    }
}

/// `s` without its first `n` elements (empty when it is shorter).
pub open spec fn skip_upto(s: Seq<Seq<char>>, n: int) -> Seq<Seq<char>> {
    if s.len() >= n { s.skip(n) } else { seq![] }
}

/// The command line as the parser saw it: `ai` put in as the subcommand
/// when the program was started as `ai`.
pub open spec fn args_for_parser(raw: Seq<Seq<char>>, as_ai: bool) -> Seq<Seq<char>> {
    if as_ai && raw.len() >= 1 { raw.insert(1, "ai"@) } else { raw }
}

/// Where a parsed command line goes: help when asked; `--generate SHELL`
/// to `aish`; the `ai` subcommand to `ai` with what follows it; another
/// subcommand to `aish` with the global options, the subcommand and the
/// arguments that follow it on the raw command line; none to `aish` with
/// the global options.
pub open spec fn spec_dispatch(
    raw: Seq<Seq<char>>,
    as_ai: bool,
    help: bool,
    generate: Option<Seq<char>>,
    subcommand: Option<Seq<char>>,
    global: Seq<Seq<char>>,
) -> DispatchView {
    if help {
        DispatchView::Help
    } else {
        match generate {
            Some(shell) => DispatchView::Aish(seq!["aish"@, "--generate"@, shell]),
            None => match subcommand {
                Some(sub) => if sub == "ai"@ {
                    DispatchView::Ai(seq!["ai"@] + skip_upto(args_for_parser(raw, as_ai), 2))
                } else {
                    DispatchView::Aish(seq!["aish"@] + global + seq![sub] + after_first(raw, sub, 1))
                },
                None => DispatchView::Aish(seq!["aish"@] + global),
            },
        }
    }
}

fn push_all_from(v: &mut Vec<String>, src: &Vec<String>, from: usize)
    requires from <= src@.len(),
    ensures texts(final(v)@) == texts(old(v)@) + texts(src@).skip(from as int),
{
    let ghost o = texts(v@);
    let mut i = from;
    while i < src.len()
        invariant
            from <= i <= src@.len(),
            texts(v@) == o + texts(src@).subrange(from as int, i as int),
        decreases src.len() - i,
    {
        let ghost before = v@;
        v.push(src[i].clone());
        assert(texts(v@) =~= texts(before).push(src@[i as int]@));
        assert(texts(src@).subrange(from as int, i + 1) =~= texts(src@).subrange(from as int, i as int).push(src@[i as int]@));
        i = i + 1;
    }
    assert(texts(src@).subrange(from as int, src@.len() as int) =~= texts(src@).skip(from as int));
}

/// Where a command line goes (see `spec_dispatch`); `raw` is the command
/// line as the program got it, the rest is what the parser found in it.
#[verifier::loop_isolation(false)]
pub fn dispatch(
    raw: &Vec<String>,
    as_ai: bool,
    help: bool,
    generate: Option<&str>,
    subcommand: Option<&str>,
    session_dir: Option<&str>,
    home_dir: Option<&str>,
    verbose: bool,
) -> (r: Dispatch)
    ensures
        dispatch_view(r) == spec_dispatch(
            texts(raw@),
            as_ai,
            help,
            opt_str(generate),
            opt_str(subcommand),
            spec_global_argv(opt_str(session_dir), opt_str(home_dir), verbose),
        ),
{
    if help {
        return Dispatch::Help;
    }
    match generate {
        Some(shell) => {
            let mut v: Vec<String> = Vec::new();
            assert(texts(v@) =~= Seq::<Seq<char>>::empty());
            push_text(&mut v, "aish");
            push_text(&mut v, "--generate");
            push_text(&mut v, shell);
            assert(texts(v@) =~= seq!["aish"@, "--generate"@, shell@]);
            return Dispatch::Aish(v);
        },
        None => {},
    }
    let global = build_global_argv(session_dir, home_dir, verbose);
    let ghost rv = texts(raw@);
    match subcommand {
        Some(sub) => {
            let sc = chars_of(sub);
            if same_text(sc.as_slice(), "ai") {
                let mut v: Vec<String> = Vec::new();
                assert(texts(v@) =~= Seq::<Seq<char>>::empty());
                push_text(&mut v, "ai");
                if as_ai && raw.len() >= 1 {
                    // The parser saw `ai` inserted after the program name.
                    if raw.len() >= 2 {
                        push_all_from(&mut v, raw, 1);
                    }
                    proof {
                        let full = rv.insert(1, "ai"@);
                        assert(full.len() >= 2);
                        assert(full.skip(2) =~= rv.skip(1));
                        if rv.len() < 2 {
                            assert(rv.skip(1) =~= Seq::<Seq<char>>::empty());
                        }
                    }
                } else {
                    if raw.len() >= 2 {
                        push_all_from(&mut v, raw, 2);
                    }
                }
                Dispatch::Ai(v)
            } else {
                let mut v: Vec<String> = Vec::new();
                assert(texts(v@) =~= Seq::<Seq<char>>::empty());
                push_text(&mut v, "aish");
                push_all_from(&mut v, &global, 0);
                push_text(&mut v, sub);
                assert(texts(global@).skip(0) =~= texts(global@));
                let ghost head = texts(v@);
                assert(head =~= seq!["aish"@] + spec_global_argv(opt_str(session_dir), opt_str(home_dir), verbose) + seq![sub@]);
                let mut i: usize = 1;
                while i < raw.len()
                    invariant
                        1 <= i,
                        rv == texts(raw@),
                        texts(v@) == head,
                        head == seq!["aish"@] + spec_global_argv(opt_str(session_dir), opt_str(home_dir), verbose) + seq![sub@],
                        after_first(rv, sub@, i as int) == after_first(rv, sub@, 1),
                    decreases raw.len() - i,
                {
                    let rc = chars_of(raw[i].as_str());
                    if same_text(rc.as_slice(), sub) {
                        assert(rv[i as int] == sub@);
                        push_all_from(&mut v, raw, i + 1);
                        assert(after_first(rv, sub@, i as int) == rv.skip(i + 1));
                        assert(texts(v@) == head + rv.skip(i + 1));
                        assert(head == seq!["aish"@] + spec_global_argv(opt_str(session_dir), opt_str(home_dir), verbose) + seq![sub@]);
                        assert(texts(v@) =~= seq!["aish"@] + spec_global_argv(opt_str(session_dir), opt_str(home_dir), verbose)
                            + seq![sub@] + after_first(rv, sub@, 1));
                        return Dispatch::Aish(v);
                    }
                    i = i + 1;
                }
                assert(after_first(rv, sub@, i as int) =~= Seq::<Seq<char>>::empty());
                assert(texts(v@) =~= head + Seq::<Seq<char>>::empty());
                Dispatch::Aish(v)
            }
        },
        None => {
            let mut v: Vec<String> = Vec::new();
            assert(texts(v@) =~= Seq::<Seq<char>>::empty());
            push_text(&mut v, "aish");
            push_all_from(&mut v, &global, 0);
            assert(texts(global@).skip(0) =~= texts(global@));
            Dispatch::Aish(v)
        },
    }
}

/// Started under the name `ai`, the program does what `aish ai` does with
/// the same arguments: the command line `ai A...` goes where `aish ai A...`
/// goes (the parser finds the `ai` subcommand in both).
pub proof fn lemma_ai_is_aish_ai(raw: Seq<Seq<char>>, global: Seq<Seq<char>>)
    requires
        raw.len() >= 1,
    ensures
        spec_dispatch(raw, true, false, None, Some("ai"@), global)
            == spec_dispatch(seq![raw[0], "ai"@] + raw.skip(1), false, false, None, Some("ai"@), global),
{
    let alias = seq![raw[0], "ai"@] + raw.skip(1);
    assert(raw.insert(1, "ai"@).skip(2) =~= raw.skip(1));
    assert(alias.skip(2) =~= raw.skip(1));
}

/// The usage text of the `aish` binary.
pub const HELP_TEXT: &'static str = "Usage: aish [options] <subcommand> [args...]
  -h, --help            Show this help
  -s, --session-dir     Session directory (resume)
  -d, --home-dir        Home directory (AISH_HOME)
  -v, --verbose         Verbose logs
  --generate <shell>    Generate shell completion script (bash, zsh, fish)

Subcommands:
  ai                    Run ai (query, task, --policy-explain, etc.)
  shell                 Start interactive shell
  plugins               List external plugins (aish plugins list)
  tools                 List external tools (aish tools list)
  sessions              List sessions or rebuild-derived
  policy                Policy explain
  config                Config explain
  clear, init, memory, history, resume, rollout, mute, unmute, truncate_console_log
  daemon start|ping|status   Single-writer daemon (aishd)
";

} // verus!
