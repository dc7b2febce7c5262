//! Where runtime resources (tasks, prompt hooks, plugins, skills, packages)
//! are looked up, in priority order, and how the project root is found.

use vstd::prelude::*;
use crate::path::{is_canonical_absolute, join, join_chars, spec_join};
use crate::text::{chars_of, slice_to_vec, string_from_chars};
use crate::error::Error;
use crate::session::{FileMetadata, FileSystem};

verus! {

/// The kinds of resource the catalog lists.
#[derive(Debug, Clone, Copy, PartialEq, Eq, Structural)]
pub enum CatalogKind {
    Tasks,
    SystemPromptHooks,
    Plugins,
    Skills,
    Packages,
}

/// Where a location comes from.
#[derive(Debug, Clone, Copy, PartialEq, Eq, Structural)]
pub enum CatalogScope {
    /// `{project_root}/.aish/...`
    Project,
    /// Under the configuration directory.
    UserConfig,
    /// Older places kept for compatibility (`~/.aish`, `plugins.d`, `AISH_HOME`).
    LegacyUser,
    /// Reserved for system-wide locations.
    System,
}

/// A directory that holds resources of a kind.
#[derive(Debug, Clone)]
pub struct CatalogLocation {
    pub kind: CatalogKind,
    pub scope: CatalogScope,
    pub path: String,
}

/// A location by its parts.
pub struct LocationView {
    pub kind: CatalogKind,
    pub scope: CatalogScope,
    pub path: Seq<char>,
}

pub open spec fn location_view(l: CatalogLocation) -> LocationView {
    LocationView { kind: l.kind, scope: l.scope, path: l.path@ }
}

pub open spec fn locations_view(v: Seq<CatalogLocation>) -> Seq<LocationView> {
    v.map_values(|l: CatalogLocation| location_view(l))
}

pub open spec fn at(kind: CatalogKind, scope: CatalogScope, path: Seq<char>) -> Seq<LocationView> {
    seq![LocationView { kind, scope, path }]
}

/// A value of an environment variable that counts: set and not empty.
pub open spec fn nonempty(v: Option<Seq<char>>) -> Option<Seq<char>> {
    match v {
        Some(s) => if s.len() > 0 { Some(s) } else { None },
        None => None,
    }
}

pub open spec fn j2(a: Seq<char>, b: Seq<char>, c: Seq<char>) -> Seq<char> {
    spec_join(spec_join(a, b), c)
}

pub open spec fn j3(a: Seq<char>, b: Seq<char>, c: Seq<char>, d: Seq<char>) -> Seq<char> {
    spec_join(spec_join(spec_join(a, b), c), d)
}

/// The candidate directories of a kind, in priority order, given the
/// configuration directory, `AISH_HOME`, `HOME` and the project root.
pub open spec fn opt_at(kind: CatalogKind, scope: CatalogScope, base: Option<Seq<char>>, path: spec_fn(Seq<char>) -> Seq<char>) -> Seq<LocationView> {
    match base {
        Some(b) => at(kind, scope, path(b)),
        None => seq![],
    }
}

/// The candidate directories of a kind, in priority order, given the
/// configuration directory, `AISH_HOME`, `HOME` and the project root.
pub open spec fn spec_candidates(
    kind: CatalogKind,
    config_dir: Seq<char>,
    aish_home: Option<Seq<char>>,
    home: Option<Seq<char>>,
    project_root: Option<Seq<char>>,
) -> Seq<LocationView> {
    let home = nonempty(home);
    match kind {
        CatalogKind::Tasks =>
            at(kind, CatalogScope::UserConfig, spec_join(config_dir, "task.d"@))
            + opt_at(kind, CatalogScope::LegacyUser, nonempty(aish_home), |h: Seq<char>| spec_join(h, "task.d"@)),
        CatalogKind::SystemPromptHooks =>
            at(kind, CatalogScope::UserConfig, j2(config_dir, "hooks"@, "system_prompt"@))
            + opt_at(kind, CatalogScope::LegacyUser, home, |h: Seq<char>| j3(h, ".aish"@, "hooks"@, "system_prompt"@))
            + opt_at(kind, CatalogScope::Project, project_root, |r: Seq<char>| j3(r, ".aish"@, "hooks"@, "system_prompt"@)),
        CatalogKind::Plugins =>
            opt_at(kind, CatalogScope::Project, project_root, |r: Seq<char>| j2(r, ".aish"@, "plugins"@))
            + at(kind, CatalogScope::UserConfig, spec_join(config_dir, "plugins"@))
            + at(kind, CatalogScope::LegacyUser, spec_join(config_dir, "plugins.d"@))
            + opt_at(kind, CatalogScope::LegacyUser, home, |h: Seq<char>| j2(h, ".aish"@, "plugins.d"@)),
        CatalogKind::Skills =>
            opt_at(kind, CatalogScope::Project, project_root, |r: Seq<char>| j2(r, ".aish"@, "skills"@))
            + at(kind, CatalogScope::UserConfig, spec_join(config_dir, "skills"@)),
        CatalogKind::Packages =>
            opt_at(kind, CatalogScope::Project, project_root, |r: Seq<char>| j2(r, ".aish"@, "packages"@))
            + at(kind, CatalogScope::UserConfig, spec_join(config_dir, "packages"@)),
    }
}

pub open spec fn opt_view(v: Option<&str>) -> Option<Seq<char>> {
    match v {
        Some(s) => Some(s@),
        None => None,
    }
}

fn loc(kind: CatalogKind, scope: CatalogScope, path: String) -> (r: CatalogLocation)
    ensures location_view(r) == (LocationView { kind, scope, path: path@ }),
{
    CatalogLocation { kind, scope, path }
}

fn join2(a: &str, b: &str, c: &str) -> (r: String)
    ensures r@ == j2(a@, b@, c@),
{
    let x = join(a, b);
    join(x.as_str(), c)
}

fn join3(a: &str, b: &str, c: &str, d: &str) -> (r: String)
    ensures r@ == j3(a@, b@, c@, d@),
{
    let x = join2(a, b, c);
    join(x.as_str(), d)
}

fn nonempty_exec<'a>(v: Option<&'a str>) -> (r: Option<&'a str>)
    ensures opt_view(r) == nonempty(opt_view(v)),
{
    match v {
        Some(s) => if !s.is_empty() { Some(s) } else { None },
        None => None,
    }
}

/// The candidate directories of `kind`, in the order they are searched.
pub fn location_candidates(
    kind: CatalogKind,
    config_dir: &str,
    aish_home: Option<&str>,
    home: Option<&str>,
    project_root: Option<&str>,
) -> (r: Vec<CatalogLocation>)
    ensures
        locations_view(r@) == spec_candidates(kind, config_dir@, opt_view(aish_home), opt_view(home), opt_view(project_root)),
{
    let mut out: Vec<CatalogLocation> = Vec::new();
    let h = nonempty_exec(home);
    match kind {
        CatalogKind::Tasks => {
            out.push(loc(kind, CatalogScope::UserConfig, join(config_dir, "task.d")));
            match nonempty_exec(aish_home) {
                Some(a) => out.push(loc(kind, CatalogScope::LegacyUser, join(a, "task.d"))),
                None => {},
            }
        },
        CatalogKind::SystemPromptHooks => {
            out.push(loc(kind, CatalogScope::UserConfig, join2(config_dir, "hooks", "system_prompt")));
            match h {
                Some(x) => out.push(loc(kind, CatalogScope::LegacyUser, join3(x, ".aish", "hooks", "system_prompt"))),
                None => {},
            }
            match project_root {
                Some(p) => out.push(loc(kind, CatalogScope::Project, join3(p, ".aish", "hooks", "system_prompt"))),
                None => {},
            }
        },
        CatalogKind::Plugins => {
            match project_root {
                Some(p) => out.push(loc(kind, CatalogScope::Project, join2(p, ".aish", "plugins"))),
                None => {},
            }
            out.push(loc(kind, CatalogScope::UserConfig, join(config_dir, "plugins")));
            out.push(loc(kind, CatalogScope::LegacyUser, join(config_dir, "plugins.d")));
            match h {
                Some(x) => out.push(loc(kind, CatalogScope::LegacyUser, join2(x, ".aish", "plugins.d"))),
                None => {},
            }
        },
        CatalogKind::Skills => {
            match project_root {
                Some(p) => out.push(loc(kind, CatalogScope::Project, join2(p, ".aish", "skills"))),
                None => {},
            }
            out.push(loc(kind, CatalogScope::UserConfig, join(config_dir, "skills")));
        },
        CatalogKind::Packages => {
            match project_root {
                Some(p) => out.push(loc(kind, CatalogScope::Project, join2(p, ".aish", "packages"))),
                None => {},
            }
            out.push(loc(kind, CatalogScope::UserConfig, join(config_dir, "packages")));
        },
    }
    assert(locations_view(out@) =~= spec_candidates(kind, config_dir@, opt_view(aish_home), opt_view(home), opt_view(project_root)));
    out
}

/// The elements of `s` whose flag is set, in order.
pub open spec fn keep_flagged<T>(s: Seq<T>, flags: Seq<bool>) -> Seq<T>
    decreases s.len(),
{
    if s.len() == 0 || flags.len() == 0 {
        seq![]
    } else {
        keep_flagged(s.drop_last(), flags.drop_last()) + if flags.last() { seq![s.last()] } else { seq![] }
    }
}

/// The candidates that are directories (`is_dir[i]` tells for candidate `i`),
/// in priority order.
pub fn keep_directories(candidates: Vec<CatalogLocation>, is_dir: &[bool]) -> (r: Vec<CatalogLocation>)
    requires
        is_dir@.len() == candidates@.len(),
    ensures
        locations_view(r@) == keep_flagged(locations_view(candidates@), is_dir@),
{
    let mut out: Vec<CatalogLocation> = Vec::new();
    let mut rest = candidates;
    let ghost orig = rest@;
    let mut i: usize = 0;
    assert(orig.subrange(0, orig.len() as int) =~= orig);
    assert(locations_view(orig.take(0)) =~= Seq::<LocationView>::empty());
    while rest.len() > 0
        invariant
            i + rest@.len() == orig.len(),
            is_dir@.len() == orig.len(),
            rest@ == orig.subrange(i as int, orig.len() as int),
            locations_view(out@) == keep_flagged(locations_view(orig.take(i as int)), is_dir@.take(i as int)),
        decreases rest@.len(),
    {
        let l = rest.remove(0);
        proof {
            let lv = locations_view(orig.take(i + 1));
            assert(lv.drop_last() =~= locations_view(orig.take(i as int)));
            assert(lv.last() == location_view(l));
            assert(is_dir@.take(i + 1).drop_last() =~= is_dir@.take(i as int));
        }
        if is_dir[i] {
            out.push(l);
            proof {
                assert(locations_view(out@) =~= locations_view(out@.drop_last()) + seq![location_view(l)]);
            }
        }
        i = i + 1;
    }
    assert(orig.take(orig.len() as int) =~= orig);
    assert(is_dir@.take(is_dir@.len() as int) =~= is_dir@);
    out
}

/// Index of the last `/` of a path that starts with one.
pub open spec fn last_slash(p: Seq<char>) -> int
    decreases p.len(),
{
    if p.len() == 0 {
        -1
    } else if p.last() == '/' {
        p.len() - 1
    } else {
        last_slash(p.drop_last())
    }
}

/// `Path::parent` of a canonical absolute path: `None` for `/`.
pub open spec fn spec_parent(p: Seq<char>) -> Option<Seq<char>> {
    if p.len() <= 1 {
        None
    } else {
        let i = last_slash(p);
        if i <= 0 { Some(seq!['/']) } else { Some(p.take(i)) }
    }
}

proof fn lemma_last_slash(p: Seq<char>)
    ensures
        -1 <= last_slash(p) < p.len(),
        last_slash(p) >= 0 ==> p[last_slash(p)] == '/',
        forall|j: int| last_slash(p) < j < p.len() ==> p[j] != '/',
    decreases p.len(),
{
    if p.len() > 0 && p.last() != '/' {
        lemma_last_slash(p.drop_last());
        assert forall|j: int| last_slash(p) < j < p.len() implies p[j] != '/' by {
            if j < p.len() - 1 {
                assert(p.drop_last()[j] == p[j]);
            }
        }
    }
}

/// The parent of a canonical absolute path is canonical absolute and shorter.
proof fn lemma_parent_canonical(p: Seq<char>)
    requires
        is_canonical_absolute(p),
    ensures
        spec_parent(p) matches Some(q) ==> is_canonical_absolute(q) && q.len() < p.len(),
{
    lemma_last_slash(p);
    if p.len() > 1 {
        let i = last_slash(p);
        if i > 0 {
            let q = p.take(i);
            assert(q.last() != '/') by {
                if q.last() == '/' {
                    assert(p[i - 1] == '/' && p[i] == '/');
                }
            }
            assert forall|k: int| 0 <= k < q.len() - 1 && #[trigger] q[k] == '/' implies q[k + 1] != '/' by {
                assert(p[k] == '/');
            }
            assert forall|k: int| 0 <= k < q.len() && q[k] == '/' implies !crate::path::is_dot_component_at(q, k + 1) by {
                assert(p[k] == '/');
                assert(!crate::path::is_dot_component_at(p, k + 1));
            }
        }
    }
}

/// A canonical absolute path and its ancestors, nearest first, ending at `/`.
pub open spec fn spec_ancestors(p: Seq<char>) -> Seq<Seq<char>>
    decreases p.len(),
{
    if p.len() <= 1 {
        seq![p]
    } else {
        let i = last_slash(p);
        let q = if i <= 0 { seq!['/'] } else { p.take(i) };
        if q.len() < p.len() { seq![p] + spec_ancestors(q) } else { seq![p] }
    }
}

fn parent_exec(p: &Vec<char>) -> (r: Option<Vec<char>>)
    ensures
        match spec_parent(p@) {
            Some(q) => r matches Some(x) && x@ == q,
            None => r is None,
        },
{
    if p.len() <= 1 {
        return None;
    }
    let mut i = p.len();
    assert(p@.take(p@.len() as int) =~= p@);
    while i > 0 && p[i - 1] != '/'
        invariant
            i <= p@.len(),
            last_slash(p@.take(i as int)) == last_slash(p@),
        decreases i,
    {
        proof {
            assert(p@.take(i as int).drop_last() =~= p@.take(i - 1));
        }
        i = i - 1;
    }
    proof {
        assert(p@.take(p@.len() as int) =~= p@);
        if i > 0 {
            assert(p@.take(i as int).last() == '/');
        } else {
            assert(p@.take(0) =~= Seq::<char>::empty());
        }
    }
    if i <= 1 {
        let mut v: Vec<char> = Vec::new();
        v.push('/');
        Some(v)
    } else {
        let v = slice_to_vec(p.as_slice(), 0, i - 1);
        Some(v)
    }
}

/// The working directory and its ancestors, nearest first (each one is a
/// place where the project's `.aish` directory is looked for).
pub fn ancestors(cwd: &str) -> (r: Vec<String>)
    requires
        is_canonical_absolute(cwd@),
    ensures
        r@.map_values(|s: String| s@) == spec_ancestors(cwd@),
{
    let mut cur = chars_of(cwd);
    let mut out: Vec<String> = Vec::new();
    loop
        invariant
            is_canonical_absolute(cur@),
            out@.map_values(|s: String| s@) + spec_ancestors(cur@) == spec_ancestors(cwd@),
        decreases cur@.len(),
    {
        proof { lemma_parent_canonical(cur@); lemma_last_slash(cur@); }
        let ghost before = out@;
        out.push(string_from_chars(cur.as_slice()));
        proof {
            assert(out@.map_values(|s: String| s@) =~= before.map_values(|s: String| s@).push(cur@));
        }
        match parent_exec(&cur) {
            Some(q) => {
                proof {
                    assert(spec_ancestors(cur@) =~= seq![cur@] + spec_ancestors(q@));
                    assert(out@.map_values(|s: String| s@) + spec_ancestors(q@) =~= before.map_values(|s: String| s@) + spec_ancestors(cur@));
                }
                cur = q;
            },
            None => {
                proof {
                    assert(spec_ancestors(cur@) =~= seq![cur@]);
                    assert(out@.map_values(|s: String| s@) =~= before.map_values(|s: String| s@) + spec_ancestors(cur@));
                }
                return out;
            },
        }
    }
}

/// The first element whose flag is set.
pub open spec fn first_flagged<T>(s: Seq<T>, flags: Seq<bool>) -> Option<T>
    decreases s.len(),
{
    if s.len() == 0 || flags.len() == 0 {
        None
    } else if flags[0] {
        Some(s[0])
    } else {
        first_flagged(s.drop_first(), flags.drop_first())
    }
}

/// The project root: the nearest of the working directory's ancestors
/// (`ancestors`) that has an `.aish` directory (`has_aish_dir[i]` tells for
/// ancestor `i`); `None` when none has one.
pub fn find_project_root(ancestors: &Vec<String>, has_aish_dir: &[bool]) -> (r: Option<String>)
    requires
        has_aish_dir@.len() == ancestors@.len(),
    ensures
        match first_flagged(ancestors@.map_values(|s: String| s@), has_aish_dir@) {
            Some(p) => r matches Some(x) && x@ == p,
            None => r is None,
        },
{
    let ghost av = ancestors@.map_values(|s: String| s@);
    let mut i: usize = 0;
    assert(av.subrange(0, av.len() as int) =~= av);
    assert(has_aish_dir@.subrange(0, has_aish_dir@.len() as int) =~= has_aish_dir@);
    while i < ancestors.len()
        invariant
            i <= ancestors@.len(),
            has_aish_dir@.len() == ancestors@.len(),
            av == ancestors@.map_values(|s: String| s@),
            first_flagged(av.subrange(i as int, av.len() as int), has_aish_dir@.subrange(i as int, has_aish_dir@.len() as int))
                == first_flagged(av, has_aish_dir@),
        decreases ancestors.len() - i,
    {
        let ghost s = av.subrange(i as int, av.len() as int);
        let ghost f = has_aish_dir@.subrange(i as int, has_aish_dir@.len() as int);
        assert(s[0] == ancestors@[i as int]@);
        assert(f[0] == has_aish_dir@[i as int]);
        if has_aish_dir[i] {
            return Some(ancestors[i].clone());
        }
        assert(s.drop_first() =~= av.subrange(i + 1, av.len() as int));
        assert(f.drop_first() =~= has_aish_dir@.subrange(i + 1, has_aish_dir@.len() as int));
        i = i + 1;
    }
    None
}

/// An element found by `first_flagged` is one of the elements.
pub proof fn lemma_first_flagged_in<T>(s: Seq<T>, flags: Seq<bool>)
    ensures
        first_flagged(s, flags) matches Some(x) ==> s.contains(x),
    decreases s.len(),
{
    if s.len() > 0 && flags.len() > 0 {
        if flags[0] {
            assert(s[0] == s[0]);
        } else {
            lemma_first_flagged_in(s.drop_first(), flags.drop_first());
            match first_flagged(s, flags) {
                Some(x) => {
                    let k = choose|k: int| 0 <= k < s.drop_first().len() && s.drop_first()[k] == x;
                    assert(s[k + 1] == x);
                },
                None => {},
            }
        }
    }
}

pub open spec fn opt_string_view(v: Option<String>) -> Option<Seq<char>> {
    match v {
        Some(s) => Some(s@),
        None => None,
    }
}

/// Whether `flag` is what asking for a directory at `path` may give: the
/// path exists (a read of its metadata succeeds) and a second read of its
/// metadata reports a directory.
pub open spec fn dir_reported<F: FileSystem>(fs: &F, path: Seq<char>, flag: bool) -> bool {
    exists|e: Result<FileMetadata, Error>, m: Result<FileMetadata, Error>|
        #[trigger] fs.metadata_answer(path, e) && #[trigger] fs.metadata_answer(path, m)
        && flag == (e is Ok && (m matches Ok(x) && x@.2))
}

/// Whether `root` is what looking for the project root may give: with no
/// working directory none; else the nearest of the working directory and its
/// ancestors for which the file system reports an `.aish` directory (see
/// `dir_reported`), none when it reports one for none of them.
pub open spec fn project_root_reported<F: FileSystem>(fs: &F, cwd: Option<String>, root: Option<Seq<char>>) -> bool {
    match cwd {
        None => root is None,
        Some(c) => exists|flags: Seq<bool>|
            flags.len() == spec_ancestors(c@).len()
            && #[trigger] first_flagged(spec_ancestors(c@), flags) == root
            && forall|k: int| 0 <= k < flags.len()
                ==> dir_reported(fs, spec_join(spec_ancestors(c@)[k], ".aish"@), #[trigger] flags[k]),
    }
}

/// The runtime catalog over a file system. The configuration directory and
/// what it reads from the environment (`AISH_HOME`, `HOME`, the working
/// directory) are resolved by the caller.
pub struct StdRuntimeCatalog<F: FileSystem> {
    pub fs: F,
    pub config_dir: String,
    pub aish_home: Option<String>,
    pub home: Option<String>,
    /// The working directory; `None` when it cannot be read.
    pub cwd: Option<String>,
}

fn as_str_opt(v: &Option<String>) -> (r: Option<&str>)
    ensures opt_view(r) == opt_string_view(*v),
{
    match v {
        Some(s) => Some(s.as_str()),
        None => None,
    }
}

impl<F: FileSystem> StdRuntimeCatalog<F> {
    pub fn new(fs: F, config_dir: String, aish_home: Option<String>, home: Option<String>, cwd: Option<String>) -> (r: Self)
        ensures
            r.fs == fs,
            r.config_dir == config_dir,
            r.aish_home == aish_home,
            r.home == home,
            r.cwd == cwd,
    {
        StdRuntimeCatalog { fs, config_dir, aish_home, home, cwd }
    }

    /// Whether the file system reports a directory at `path` (see
    /// `dir_reported`).
    fn dir_at(&self, path: &str) -> (r: bool)
        ensures
            dir_reported(&self.fs, path@, r),
    {
        let exists = self.fs.path_exists(path);
        if !exists {
            proof {
                let m0 = choose|m: Result<FileMetadata, Error>| #[trigger] self.fs.metadata_answer(path@, m) && exists == m is Ok;
                assert(self.fs.metadata_answer(path@, m0) && self.fs.metadata_answer(path@, m0));
            }
            return false;
        }
        let md = self.fs.metadata(path);
        let r = match &md {
            Ok(m) => m.is_dir(),
            Err(_) => false,
        };
        proof {
            let m0 = choose|m: Result<FileMetadata, Error>| #[trigger] self.fs.metadata_answer(path@, m) && exists == m is Ok;
            assert(self.fs.metadata_answer(path@, m0) && self.fs.metadata_answer(path@, md));
            assert(r == (m0 is Ok && (md matches Ok(x) && x@.2)));
        }
        r
    }

    /// The nearest of the working directory and its ancestors that holds an
    /// `.aish` directory; `None` when none does or the working directory is
    /// unknown. Which ones hold one is what the file system reports.
    pub fn project_root(&self) -> (r: Option<String>)
        requires
            self.cwd matches Some(c) ==> is_canonical_absolute(c@),
        ensures
            project_root_reported(&self.fs, self.cwd, opt_string_view(r)),
    {
        match &self.cwd {
            None => None,
            Some(c) => {
                let a = ancestors(c.as_str());
                let mut flags: Vec<bool> = Vec::new();
                let mut i: usize = 0;
                while i < a.len()
                    invariant
                        i <= a@.len(),
                        flags@.len() == i,
                        a@.map_values(|s: String| s@) == spec_ancestors(c@),
                        forall|k: int| 0 <= k < i
                            ==> dir_reported(&self.fs, spec_join(spec_ancestors(c@)[k], ".aish"@), #[trigger] flags@[k]),
                    decreases a.len() - i,
                {
                    let p = join(a[i].as_str(), ".aish");
                    let d = self.dir_at(p.as_str());
                    proof {
                        assert(spec_ancestors(c@)[i as int] == a@[i as int]@);
                    }
                    flags.push(d);
                    i = i + 1;
                }
                let r = find_project_root(&a, flags.as_slice());
                assert(first_flagged(spec_ancestors(c@), flags@) == opt_string_view(r));
                r
            },
        }
    }

    /// The directories of `kind` that exist, in priority order: the
    /// candidates (see `spec_candidates`, with the project root that
    /// `project_root` found) that the file system reports as directories.
    pub fn locations(&self, kind: CatalogKind) -> (r: Result<Vec<CatalogLocation>, Error>)
        requires
            self.cwd matches Some(c) ==> is_canonical_absolute(c@),
        ensures
            r matches Ok(v) && exists|root: Option<Seq<char>>, flags: Seq<bool>|
                (if kind == CatalogKind::Tasks { root is None } else { project_root_reported(&self.fs, self.cwd, root) })
                && flags.len() == spec_candidates(kind, self.config_dir@, opt_string_view(self.aish_home), opt_string_view(self.home), root).len()
                && locations_view(v@) == #[trigger] keep_flagged(
                    spec_candidates(kind, self.config_dir@, opt_string_view(self.aish_home), opt_string_view(self.home), root), flags)
                && forall|k: int| 0 <= k < flags.len() ==> dir_reported(
                    &self.fs,
                    spec_candidates(kind, self.config_dir@, opt_string_view(self.aish_home), opt_string_view(self.home), root)[k].path,
                    #[trigger] flags[k],
                ),
    {
        let root: Option<String> = match kind {
            CatalogKind::Tasks => None,
            _ => self.project_root(),
        };
        let candidates = location_candidates(
            kind,
            self.config_dir.as_str(),
            as_str_opt(&self.aish_home),
            as_str_opt(&self.home),
            as_str_opt(&root),
        );
        let ghost cands = spec_candidates(kind, self.config_dir@, opt_string_view(self.aish_home), opt_string_view(self.home), opt_string_view(root));
        assert(locations_view(candidates@).len() == candidates@.len());
        let mut flags: Vec<bool> = Vec::new();
        let mut i: usize = 0;
        while i < candidates.len()
            invariant
                i <= candidates@.len(),
                flags@.len() == i,
                locations_view(candidates@) == cands,
                forall|k: int| 0 <= k < i ==> dir_reported(&self.fs, cands[k].path, #[trigger] flags@[k]),
            decreases candidates.len() - i,
        {
            assert(cands[i as int] == location_view(candidates@[i as int]));
            let d = self.dir_at(candidates[i].path.as_str());
            flags.push(d);
            i = i + 1;
        }
        let kept = keep_directories(candidates, flags.as_slice());
        assert(locations_view(kept@) == keep_flagged(cands, flags@));
        Ok(kept)
    }
}

} // verus!
