//! Paths as text: joining, the directory layout under a state directory, and
//! the "lies under the session directory" test on canonical paths.

use vstd::prelude::*;
use crate::text::{chars_of, extend_all, seq_starts_with, starts_with, string_from_chars};

verus! {

/// `Path::join` on `/`-separated text: an absolute `part` replaces `base`;
/// otherwise a `/` is put between them unless `base` is empty or already
/// ends with one.
pub open spec fn spec_join(base: Seq<char>, part: Seq<char>) -> Seq<char> {
    if part.len() > 0 && part[0] == '/' {
        part
    } else if base.len() == 0 || base.last() == '/' {
        base + part
    } else {
        base + seq!['/'] + part
    }
}

/// `base.join(part)`.
pub fn join(base: &str, part: &str) -> (r: String)
    ensures r@ == spec_join(base@, part@),
{
    let b = chars_of(base);
    let p = chars_of(part);
    let v = join_chars(b.as_slice(), p.as_slice());
    string_from_chars(v.as_slice())
}

pub fn join_chars(b: &[char], p: &[char]) -> (r: Vec<char>)
    ensures r@ == spec_join(b@, p@),
{
    let mut v: Vec<char> = Vec::new();
    if p.len() > 0 && p[0] == '/' {
        extend_all(&mut v, p);
        return v;
    }
    extend_all(&mut v, b);
    if !(b.len() == 0 || b[b.len() - 1] == '/') {
        v.push('/');
    }
    extend_all(&mut v, p);
    v
}

/// A canonical absolute path as `fs::canonicalize` returns it: it starts with
/// `/`, and unless it is `/` itself it has no empty, `.` or `..` component and
/// no trailing `/`.
pub open spec fn is_canonical_absolute(s: Seq<char>) -> bool {
    &&& s.len() > 0
    &&& s[0] == '/'
    &&& s.len() > 1 ==> {
        &&& s.last() != '/'
        &&& forall|i: int| 0 <= i < s.len() - 1 && #[trigger] s[i] == '/' ==> s[i + 1] != '/'
        &&& forall|i: int| 0 <= i < s.len() && s[i] == '/' ==> !is_dot_component_at(s, i + 1)
    }
}

/// A component `.` or `..` starts at `j` (right after a `/`).
pub open spec fn is_dot_component_at(s: Seq<char>, j: int) -> bool {
    ||| (j < s.len() && s[j] == '.' && (j + 1 == s.len() || s[j + 1] == '/'))
    ||| (j + 1 < s.len() && s[j] == '.' && s[j + 1] == '.' && (j + 2 == s.len() || s[j + 2] == '/'))
}

/// For canonical paths, `path.strip_prefix(base)` succeeds exactly when `path`
/// is `base`, or `base` is the root, or `path` continues `base` with `/`.
pub open spec fn spec_within(base: Seq<char>, path: Seq<char>) -> bool {
    ||| path == base
    ||| base == seq!['/']
    ||| seq_starts_with(path, base + seq!['/'])
}

/// Whether `s` is a canonical absolute path.
pub fn check_canonical_absolute(s: &str) -> (r: bool)
    ensures r == is_canonical_absolute(s@),
{
    let c = chars_of(s);
    if c.len() == 0 || c[0] != '/' {
        return false;
    }
    if c.len() == 1 {
        return true;
    }
    if c[c.len() - 1] == '/' {
        return false;
    }
    let n = c.len();
    let mut i: usize = 0;
    while i < n
        invariant
            n == c@.len(),
            c@ == s@,
            n > 1,
            0 <= i <= n,
            forall|k: int| 0 <= k < i && k < n - 1 && #[trigger] c@[k] == '/' ==> c@[k + 1] != '/',
            forall|k: int| 0 <= k < i && c@[k] == '/' ==> !is_dot_component_at(c@, k + 1),
        decreases n - i,
    {
        if c[i] == '/' {
            if i + 1 < n && c[i + 1] == '/' {
                assert(c@[i as int] == '/' && c@[i + 1] == '/');
                assert(!is_canonical_absolute(s@));
                return false;
            }
            let j = i + 1;
            let one_dot = j < n && c[j] == '.' && (j + 1 == n || c[j + 1] == '/');
            let two_dots = j < n && j + 1 < n && c[j] == '.' && c[j + 1] == '.' && (j + 2 == n || c[j + 2] == '/');
            if one_dot || two_dots {
                assert(is_dot_component_at(c@, i + 1));
                assert(c@[i as int] == '/');
                assert(!is_canonical_absolute(s@));
                return false;
            }
        }
        i = i + 1;
    }
    true
}

/// `path` if it lies under `session_dir`, both given as the canonical paths
/// that `fs::canonicalize` produced for them (`None` where canonicalization
/// failed, for instance because the file does not exist).
pub fn resolve_under_session_dir(session_dir: Option<&str>, path: Option<&str>) -> (r: Option<String>)
    requires
        session_dir matches Some(b) ==> is_canonical_absolute(b@),
        path matches Some(p) ==> is_canonical_absolute(p@),
    ensures
        match (session_dir, path) {
            (Some(b), Some(p)) => if spec_within(b@, p@) {
                r matches Some(s) && s@ == p@
            } else {
                r is None
            },
            _ => r is None,
        },
{
    let base = match session_dir { Some(b) => b, None => return None };
    let p = match path { Some(p) => p, None => return None };
    let bc = chars_of(base);
    let pc = chars_of(p);
    let mut with_slash: Vec<char> = Vec::new();
    extend_all(&mut with_slash, bc.as_slice());
    with_slash.push('/');
    assert(with_slash@ =~= bc@ + seq!['/']);
    let is_root = bc.len() == 1 && bc[0] == '/';
    proof {
        if bc@.len() == 1 && bc@[0] == '/' { assert(bc@ =~= seq!['/']); }
    }
    let same = pc.len() == bc.len() && starts_with(pc.as_slice(), bc.as_slice());
    proof {
        if same { assert(pc@ =~= pc@.take(bc@.len() as int)); }
        if pc@ == bc@ { assert(pc@.take(bc@.len() as int) =~= pc@); }
    }
    if same || is_root || starts_with(pc.as_slice(), with_slash.as_slice()) {
        Some(string_from_chars(pc.as_slice()))
    } else {
        None
    }
}

/// Directories resolved from XDG variables or `AISH_HOME`.
#[derive(Debug, Clone)]
pub struct Dirs {
    pub config_dir: String,
    pub data_dir: String,
    pub state_dir: String,
    pub cache_dir: String,
}

impl Dirs {
    /// Directory that holds sessions (`<state>/session`).
    pub fn sessions_dir(&self) -> (r: String)
        ensures r@ == spec_join(self.state_dir@, seq!['s', 'e', 's', 's', 'i', 'o', 'n']),
    {
        proof { reveal_strlit("session"); }
        join(self.state_dir.as_str(), "session")
    }

    /// Directory that holds logs (`<state>/logs`).
    pub fn logs_dir(&self) -> (r: String)
        ensures r@ == spec_join(self.state_dir@, seq!['l', 'o', 'g', 's']),
    {
        proof { reveal_strlit("logs"); }
        join(self.state_dir.as_str(), "logs")
    }
}

} // verus!
