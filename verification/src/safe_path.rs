//! Path checks for files under a session directory (path traversal defence).
//!
//! `reviewed_path` / `summary_path` values that come from a manifest are
//! checked to be a single well-formed basename before they are joined, and the
//! joined path, once canonicalized, must still lie under the session directory.

use vstd::prelude::*;
use crate::text::{
    chars_of, contains_char, contains_seq, ends_with, find_char, seq_contains_seq, seq_ends_with,
    seq_starts_with, slice_to_vec, starts_with,
};

verus! {

/// Name of the subdirectory of a session that holds reviewed files.
pub const REVIEWED_DIR: &'static str = "reviewed";

/// File that records from which manifest entry history is sent (one line, a non-negative integer).
pub const HISTORY_SEND_FROM_FILENAME: &'static str = ".history_send_from";

pub open spec fn reviewed_prefix() -> Seq<char> { seq!['r', 'e', 'v', 'i', 'e', 'w', 'e', 'd', '_'] }

pub open spec fn summary_prefix() -> Seq<char> {
    seq!['c', 'o', 'm', 'p', 'a', 'c', 't', 'i', 'o', 'n', '_']
}

pub open spec fn txt_suffix() -> Seq<char> { seq!['.', 't', 'x', 't'] }

pub open spec fn reviewed_dir_name() -> Seq<char> { seq!['r', 'e', 'v', 'i', 'e', 'w', 'e', 'd'] }

/// A single path component: not empty, not `.` or `..`, and without `/` or `\`.
pub open spec fn spec_safe_component(s: Seq<char>) -> bool {
    &&& s.len() > 0
    &&& !(s.len() == 1 && s[0] == '.')
    &&& !(s.len() == 2 && s[0] == '.' && s[1] == '.')
    &&& !s.contains('/')
    &&& !s.contains('\\')
}

/// `reviewed_*.txt` as a single component.
pub open spec fn spec_safe_reviewed_basename(s: Seq<char>) -> bool {
    &&& spec_safe_component(s)
    &&& s.len() >= reviewed_prefix().len() + txt_suffix().len()
    &&& seq_starts_with(s, reviewed_prefix())
    &&& seq_ends_with(s, txt_suffix())
}

/// `compaction_*.txt` as a single component.
pub open spec fn spec_safe_summary_basename(s: Seq<char>) -> bool {
    &&& spec_safe_component(s)
    &&& s.len() >= summary_prefix().len() + txt_suffix().len()
    &&& seq_starts_with(s, summary_prefix())
    &&& seq_ends_with(s, txt_suffix())
}

/// `reviewed/<basename>`: exactly one `/`, no `..` and no `\` anywhere.
pub open spec fn spec_safe_reviewed_path(s: Seq<char>) -> bool {
    &&& s.len() > 0
    &&& !seq_contains_seq(s, seq!['.', '.'])
    &&& !s.contains('\\')
    &&& exists|i: int| 0 <= i < s.len() && s[i] == '/'
        && !s.subrange(i + 1, s.len() as int).contains('/')
        && s.subrange(0, i) == reviewed_dir_name()
        && spec_safe_reviewed_basename(s.subrange(i + 1, s.len() as int))
}

fn is_safe_basename_component(s: &[char]) -> (r: bool)
    ensures r == spec_safe_component(s@),
{
    if s.len() == 0 || (s.len() == 1 && s[0] == '.') || (s.len() == 2 && s[0] == '.' && s[1] == '.') {
        return false;
    }
    !contains_char(s, '/') && !contains_char(s, '\\')
}

fn has_basename_shape(s: &[char], prefix: &[char], suffix: &[char]) -> (r: bool)
    ensures
        r == (spec_safe_component(s@) && s@.len() >= prefix@.len() + suffix@.len()
            && seq_starts_with(s@, prefix@) && seq_ends_with(s@, suffix@)),
{
    if !is_safe_basename_component(s) {
        return false;
    }
    s.len() >= prefix.len() && s.len() - prefix.len() >= suffix.len()
        && starts_with(s, prefix) && ends_with(s, suffix)
}

fn reviewed_prefix_chars() -> (v: Vec<char>)
    ensures v@ == reviewed_prefix(),
{
    let v = chars_of("reviewed_");
    proof { reveal_strlit("reviewed_"); assert(v@ =~= reviewed_prefix()); }
    v
}

fn txt_suffix_chars() -> (v: Vec<char>)
    ensures v@ == txt_suffix(),
{
    let v = chars_of(".txt");
    proof { reveal_strlit(".txt"); assert(v@ =~= txt_suffix()); }
    v
}

fn reviewed_basename_chars(c: &[char]) -> (r: bool)
    ensures r == spec_safe_reviewed_basename(c@),
{
    let p = reviewed_prefix_chars();
    let q = txt_suffix_chars();
    has_basename_shape(c, p.as_slice(), q.as_slice())
}

/// Whether `s` is allowed as the basename of a reviewed file: a single
/// component that starts with `reviewed_` and ends with `.txt`.
pub fn is_safe_reviewed_basename(s: &str) -> (r: bool)
    ensures r == spec_safe_reviewed_basename(s@),
{
    let c = chars_of(s);
    reviewed_basename_chars(c.as_slice())
}

/// Whether `s` is allowed as a manifest `reviewed_path`: `reviewed/<basename>`
/// with a single level and no `..`.
pub fn is_safe_reviewed_path(s: &str) -> (r: bool)
    ensures r == spec_safe_reviewed_path(s@),
{
    let c = chars_of(s);
    let dotdot = chars_of("..");
    proof { reveal_strlit(".."); assert(dotdot@ =~= seq!['.', '.']); }
    if c.len() == 0 || contains_seq(c.as_slice(), dotdot.as_slice()) || contains_char(c.as_slice(), '\\') {
        return false;
    }
    let slash = match find_char(c.as_slice(), 0, '/') {
        Some(i) => i,
        None => {
            return false;
        }
    };
    let rest = slice_to_vec(c.as_slice(), slash + 1, c.len());
    let head = slice_to_vec(c.as_slice(), 0, slash);
    let dir = chars_of("reviewed");
    proof { reveal_strlit("reviewed"); assert(dir@ =~= reviewed_dir_name()); }
    let no_more_slash = !contains_char(rest.as_slice(), '/');
    let head_ok = head.len() == dir.len() && starts_with(head.as_slice(), dir.as_slice());
    let base_ok = reviewed_basename_chars(rest.as_slice());
    proof {
        if head_ok {
            assert(head@ =~= head@.take(dir@.len() as int));
        }
        if spec_safe_reviewed_path(s@) {
            let i = choose|i: int| 0 <= i < c@.len() && c@[i] == '/'
                && !c@.subrange(i + 1, c@.len() as int).contains('/')
                && c@.subrange(0, i) == reviewed_dir_name()
                && spec_safe_reviewed_basename(c@.subrange(i + 1, c@.len() as int));
            if i != slash {
                assert(i > slash);
                assert(c@.subrange(0, i)[slash as int] == '/');
                assert(reviewed_dir_name()[slash as int] != '/');
            }
            assert(head@.take(dir@.len() as int) =~= head@);
        }
    }
    no_more_slash && head_ok && base_ok
}

/// Whether `s` is allowed as the basename of a compaction summary: a single
/// component that starts with `compaction_` and ends with `.txt`.
pub fn is_safe_summary_basename(s: &str) -> (r: bool)
    ensures r == spec_safe_summary_basename(s@),
{
    let c = chars_of(s);
    let p = chars_of("compaction_");
    proof { reveal_strlit("compaction_"); assert(p@ =~= summary_prefix()); }
    let q = txt_suffix_chars();
    has_basename_shape(c.as_slice(), p.as_slice(), q.as_slice())
}

} // verus!
