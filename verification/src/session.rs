//! Session directories: the file-system port, the session schema version
//! check, and the validated session and home paths.

use vstd::prelude::*;
use vstd::string::*;
use crate::error::Error;
use crate::logfmt::push_str;
use crate::path::{join, spec_join};
use crate::text::{
    chars_of, decimal, decimal_chars, extend_all, int_error_message, int_error_text, parse_int,
    spec_parse_int, string_from_chars, trim, trim_chars,
};

verus! {

/// Size and kind of a file-system entry.
#[derive(Debug, Clone, Copy)]
pub struct FileMetadata {
    len: u64,
    is_file: bool,
    is_dir: bool,
}

impl View for FileMetadata {
    type V = (u64, bool, bool);

    closed spec fn view(&self) -> (u64, bool, bool) {
        (self.len, self.is_file, self.is_dir)
    }
}

impl FileMetadata {
    pub fn new(len: u64, is_file: bool, is_dir: bool) -> (r: FileMetadata)
        ensures r@ == (len, is_file, is_dir),
    {
        FileMetadata { len, is_file, is_dir }
    }

    pub fn len(&self) -> (r: u64)
        ensures r == self@.0,
    {
        self.len
    }

    pub fn is_file(&self) -> (r: bool)
        ensures r == self@.1,
    {
        self.is_file
    }

    pub fn is_dir(&self) -> (r: bool)
        ensures r == self@.2,
    {
        self.is_dir
    }
}

/// The file system, as the use cases see it. Implementations do real I/O
/// (or keep files in memory for tests), so an answer depends on more than the
/// call: each operation is tied to its arguments by a predicate saying which
/// answers the file system may give to that call. By default any answer may
/// come; an implementation may define the predicates more narrowly.
pub trait FileSystem {
    /// Whether `r` is an answer this file system may give to reading `path`.
    closed spec fn read_answer(&self, path: Seq<char>, r: Result<String, Error>) -> bool {
        true
    }

    /// Whether `r` is an answer it may give to writing `contents` to `path`.
    closed spec fn write_answer(&self, path: Seq<char>, contents: Seq<char>, r: Result<(), Error>) -> bool {
        true
    }

    /// Whether `r` is an answer it may give to creating the directory `path`
    /// with its missing parents.
    closed spec fn create_dir_answer(&self, path: Seq<char>, r: Result<(), Error>) -> bool {
        true
    }

    /// Whether `r` is an answer it may give to reading the metadata of `path`.
    closed spec fn metadata_answer(&self, path: Seq<char>, r: Result<FileMetadata, Error>) -> bool {
        true
    }

    /// Whether `r` is an answer it may give to canonicalizing `path`.
    closed spec fn canonicalize_answer(&self, path: Seq<char>, r: Result<String, Error>) -> bool {
        true
    }

    fn read_to_string(&self, path: &str) -> (r: Result<String, Error>)
        ensures
            self.read_answer(path@, r),
    ;

    fn write(&self, path: &str, contents: &str) -> (r: Result<(), Error>)
        ensures
            self.write_answer(path@, contents@, r),
    ;

    fn rename(&self, from: &str, to: &str) -> Result<(), Error>;

    fn create_dir_all(&self, path: &str) -> (r: Result<(), Error>)
        ensures
            self.create_dir_answer(path@, r),
    ;

    fn metadata(&self, path: &str) -> (r: Result<FileMetadata, Error>)
        ensures
            self.metadata_answer(path@, r),
    ;

    fn remove_file(&self, path: &str) -> Result<(), Error>;

    /// Removes a directory with everything in it.
    fn remove_dir_all(&self, path: &str) -> Result<(), Error>;

    /// Full paths of the entries directly in a directory.
    fn read_dir(&self, path: &str) -> Result<Vec<String>, Error>;

    fn canonicalize(&self, path: &str) -> (r: Result<String, Error>)
        ensures
            self.canonicalize_answer(path@, r),
    ;

    /// Empties a file, creating it when missing.
    fn truncate_file(&self, path: &str) -> Result<(), Error>;

    /// Copies one file by reading it as text and writing the text: a failed
    /// read is the result, else what the write of the text read answers.
    fn copy_file(&self, from: &str, to: &str) -> (r: Result<(), Error>)
        ensures
            exists|c: Result<String, Error>| #[trigger] self.read_answer(from@, c) && match c {
                Err(e) => r == Err::<(), Error>(e),
                Ok(t) => self.write_answer(to@, t@, r),
            },
    {
        let c = self.read_to_string(from);
        match c {
            Err(e) => Err(e),
            Ok(t) => self.write(to, t.as_str()),
        }
    }

    /// Whether the path exists (its metadata can be read).
    fn path_exists(&self, path: &str) -> (r: bool)
        ensures
            exists|m: Result<FileMetadata, Error>| #[trigger] self.metadata_answer(path@, m) && r == m is Ok,
    {
        let m = self.metadata(path);
        m.is_ok()
    }
}

/// Name of the file that records a session's schema version.
pub const SESSION_SCHEMA_VERSION_FILE: &'static str = "session_schema_version";

/// The schema version this program writes and reads.
pub const SESSION_SCHEMA_LATEST: u32 = 2;

pub open spec fn version_file_path(session_dir: Seq<char>) -> Seq<char> {
    spec_join(session_dir, "session_schema_version"@)
}

/// The version a session's version file gives (`content` is `None` when the
/// file cannot be read), or the message of the usage error it leads to.
pub open spec fn spec_version(content: Option<Seq<char>>, file: Seq<char>) -> Result<u32, Seq<char>> {
    match content {
        None => Err("Session schema version file missing: "@ + file + " (run scripts/migrate.sh)"@),
        Some(c) => match spec_parse_int(trim(c), u32::MAX as nat) {
            Ok(v) => Ok(v as u32),
            Err(k) => Err("Invalid session schema version '"@ + trim(c) + "': "@ + int_error_text(k) + " (file: "@ + file + ")"@),
        },
    }
}

/// The result matches the version, or an invalid-argument error with the message.
pub open spec fn result_is(r: Result<u32, Error>, expected: Result<u32, Seq<char>>) -> bool {
    match expected {
        Ok(v) => r == Ok::<u32, Error>(v),
        Err(m) => r matches Err(Error::InvalidArgument(x)) && x@ == m,
    }
}

/// The schema version from the version file's content (`None` when the file
/// could not be read); `file` is the file's path, for messages.
pub fn version_from_content(content: Option<&str>, file: &str) -> (r: Result<u32, Error>)
    ensures
        result_is(r, spec_version(match content { Some(c) => Some(c@), None => None }, file@)),
{
    match content {
        None => {
            let mut v = chars_of("Session schema version file missing: ");
            push_str(&mut v, file);
            push_str(&mut v, " (run scripts/migrate.sh)");
            assert(v@ =~= "Session schema version file missing: "@ + file@ + " (run scripts/migrate.sh)"@);
            Err(Error::InvalidArgument(string_from_chars(v.as_slice())))
        },
        Some(c) => {
            let cs = chars_of(c);
            let t = trim_chars(cs.as_slice());
            match parse_int(t.as_slice(), 4294967295u64) {
                Ok(n) => Ok(n as u32),
                Err(k) => {
                    let mut v = chars_of("Invalid session schema version '");
                    extend_all(&mut v, t.as_slice());
                    push_str(&mut v, "': ");
                    push_str(&mut v, int_error_message(k));
                    push_str(&mut v, " (file: ");
                    push_str(&mut v, file);
                    push_str(&mut v, ")");
                    assert(v@ =~= "Invalid session schema version '"@ + t@ + "': "@ + int_error_text(k) + " (file: "@ + file@ + ")"@);
                    Err(Error::InvalidArgument(string_from_chars(v.as_slice())))
                },
            }
        },
    }
}

/// The text a read gives (`None` when the read failed).
pub open spec fn read_content(c: Result<String, Error>) -> Option<Seq<char>> {
    match c {
        Ok(t) => Some(t@),
        Err(_) => None,
    }
}

/// Reads a session's schema version from its version file: the result is
/// what `version_from_content` makes of an answer the file system may give
/// to reading that file.
pub fn read_version<F: FileSystem>(fs: &F, session_dir: &str) -> (r: Result<u32, Error>)
    ensures
        exists|c: Result<String, Error>|
            #[trigger] fs.read_answer(version_file_path(session_dir@), c)
            && result_is(r, spec_version(read_content(c), version_file_path(session_dir@))),
{
    let p = join(session_dir, SESSION_SCHEMA_VERSION_FILE);
    let content = fs.read_to_string(p.as_str());
    let ghost c = content;
    assert(p@ == version_file_path(session_dir@));
    match content {
        Ok(s) => {
            let r = version_from_content(Some(s.as_str()), p.as_str());
            assert(result_is(r, spec_version(read_content(c), version_file_path(session_dir@))));
            r
        },
        Err(_) => {
            let r = version_from_content(None, p.as_str());
            assert(result_is(r, spec_version(read_content(c), version_file_path(session_dir@))));
            r
        },
    }
}

pub open spec fn unsupported_message(v: nat, session_dir: Seq<char>) -> Seq<char> {
    "Unsupported session schema version "@ + decimal(v) + " (latest 2). Run scripts/migrate.sh -s "@ + session_dir
}

/// Accepts the latest schema version; any other is a usage error that says
/// how to migrate the session.
pub fn check_latest(v: u32, session_dir: &str) -> (r: Result<(), Error>)
    ensures
        v == SESSION_SCHEMA_LATEST <==> r is Ok,
        v != SESSION_SCHEMA_LATEST ==> (r matches Err(Error::InvalidArgument(m)) && m@ == unsupported_message(v as nat, session_dir@)),
{
    if v != SESSION_SCHEMA_LATEST {
        let mut m = chars_of("Unsupported session schema version ");
        let d = decimal_chars(v as u64);
        extend_all(&mut m, d.as_slice());
        push_str(&mut m, " (latest 2). Run scripts/migrate.sh -s ");
        push_str(&mut m, session_dir);
        return Err(Error::InvalidArgument(string_from_chars(m.as_slice())));
    }
    Ok(())
}

/// What the check of a session's schema gives for the version file's
/// content (`None`: it could not be read): the version's error, success for
/// the latest version, else the message that says how to migrate.
pub open spec fn spec_require_latest(content: Option<Seq<char>>, session_dir: Seq<char>) -> Result<(), Seq<char>> {
    match spec_version(content, version_file_path(session_dir)) {
        Err(m) => Err(m),
        Ok(v) => if v == SESSION_SCHEMA_LATEST { Ok(()) } else { Err(unsupported_message(v as nat, session_dir)) },
    }
}

/// `r` is the outcome `o`: success, or an invalid-argument error with the message.
pub open spec fn unit_result_is(r: Result<(), Error>, o: Result<(), Seq<char>>) -> bool {
    match o {
        Ok(_) => r is Ok,
        Err(m) => r matches Err(Error::InvalidArgument(x)) && x@ == m,
    }
}

/// Succeeds when the session's schema version is the latest one: the
/// result is `spec_require_latest` of an answer the file system may give to
/// reading the version file.
pub fn require_latest<F: FileSystem>(fs: &F, session_dir: &str) -> (r: Result<(), Error>)
    ensures
        exists|c: Result<String, Error>|
            #[trigger] fs.read_answer(version_file_path(session_dir@), c)
            && unit_result_is(r, spec_require_latest(read_content(c), session_dir@)),
{
    let rv = read_version(fs, session_dir);
    let ghost c = choose|c: Result<String, Error>|
        #[trigger] fs.read_answer(version_file_path(session_dir@), c)
        && result_is(rv, spec_version(read_content(c), version_file_path(session_dir@)));
    let v = match rv {
        Ok(v) => v,
        Err(e) => {
            assert(unit_result_is(Err(e), spec_require_latest(read_content(c), session_dir@)));
            return Err(e);
        },
    };
    assert(spec_version(read_content(c), version_file_path(session_dir@)) == Ok::<u32, Seq<char>>(v));
    let r = check_latest(v, session_dir);
    assert(unit_result_is(r, spec_require_latest(read_content(c), session_dir@)));
    r
}

pub open spec fn not_a_directory_message(name: Seq<char>, path: Seq<char>) -> Seq<char> {
    name + " '"@ + path + "' exists but is not a directory"@
}

pub open spec fn with_cause(prefix: Seq<char>, name: Seq<char>, path: Seq<char>, cause: Seq<char>) -> Seq<char> {
    prefix + name + " '"@ + path + "': "@ + cause
}

fn io_error(v: Vec<char>) -> (e: Error)
    ensures e matches Error::Io { message, source } && message@ == v@ && source is None,
{
    Error::Io { message: string_from_chars(v.as_slice()), source: None }
}

/// What the metadata of a path tells before it is used as a directory:
/// `Ok(true)` when it is missing, `Ok(false)` when it is a directory, and an
/// I/O error naming the path when it is something else.
pub fn check_directory(path: &str, name: &str, meta: &Result<FileMetadata, Error>) -> (r: Result<bool, Error>)
    ensures
        match meta {
            Err(_) => r == Ok::<bool, Error>(true),
            Ok(m) => if m@.2 {
                r == Ok::<bool, Error>(false)
            } else {
                r matches Err(Error::Io { message, source }) && message@ == not_a_directory_message(name@, path@) && source is None
            },
        },
{
    match meta {
        Err(_) => Ok(true),
        Ok(m) => {
            if m.is_dir() {
                Ok(false)
            } else {
                let mut v = chars_of(name);
                push_str(&mut v, " '");
                push_str(&mut v, path);
                push_str(&mut v, "' exists but is not a directory");
                Err(io_error(v))
            }
        },
    }
}

/// An I/O error `"{prefix}{name} '{path}': {cause}"`.
fn failure(prefix: &str, name: &str, path: &str, cause: &Error) -> (e: Error)
    ensures e matches Error::Io { message, source } && message@ == with_cause(prefix@, name@, path@, cause.spec_message()) && source is None,
{
    let mut v = chars_of(prefix);
    push_str(&mut v, name);
    push_str(&mut v, " '");
    push_str(&mut v, path);
    push_str(&mut v, "': ");
    let c = cause.message();
    push_str(&mut v, c.as_str());
    io_error(v)
}

pub open spec fn missing_message(name: Seq<char>, path: Seq<char>) -> Seq<char> {
    name + " '"@ + path + "' does not exist"@
}

/// What making a directory ready gives, for each answer of the file system:
/// `meta` from reading the path's metadata, `create` from creating it (asked
/// only when it is missing and may be created), `canon` from canonicalizing
/// it. A path that is not a directory, a missing path that may not be
/// created, and a failed creation or canonicalization are errors with these
/// messages; otherwise the canonical path and whether it was created.
pub open spec fn dir_outcome(
    path: Seq<char>,
    name: Seq<char>,
    create_missing: bool,
    meta: Result<FileMetadata, Error>,
    create: Result<(), Error>,
    canon: Result<String, Error>,
) -> Result<(Seq<char>, bool), Seq<char>> {
    if meta matches Ok(m) && !m@.2 {
        Err(not_a_directory_message(name, path))
    } else {
        let missing = meta is Err;
        if missing && !create_missing {
            Err(missing_message(name, path))
        } else if missing && create is Err {
            Err(with_cause("Failed to create "@, name, path, create->Err_0.spec_message()))
        } else {
            match canon {
                Ok(p) => Ok((p@, missing)),
                Err(e) => Err(with_cause("Failed to canonicalize "@, name, path, e.spec_message())),
            }
        }
    }
}

/// Whether making a directory ready asks to canonicalize it: it is a
/// directory, or it was missing and has been created.
pub open spec fn canon_asked(meta: Result<FileMetadata, Error>, create_missing: bool, create: Result<(), Error>) -> bool {
    match meta {
        Ok(m) => m@.2,
        Err(_) => create_missing && create is Ok,
    }
}

/// Whether the answers are ones the file system may give to the calls made
/// on `path`: its metadata, its creation (asked only when it is missing and
/// may be created) and its canonicalization (see `canon_asked`).
pub open spec fn dir_answers<F: FileSystem>(
    fs: &F,
    path: Seq<char>,
    create_missing: bool,
    meta: Result<FileMetadata, Error>,
    create: Result<(), Error>,
    canon: Result<String, Error>,
) -> bool {
    &&& fs.metadata_answer(path, meta)
    &&& (meta is Err && create_missing ==> fs.create_dir_answer(path, create))
    &&& (canon_asked(meta, create_missing, create) ==> fs.canonicalize_answer(path, canon))
}

/// `r` is the outcome `o`: the same path and flag, or an I/O error (with no
/// source) carrying the same message.
pub open spec fn dir_result_is(r: Result<(String, bool), Error>, o: Result<(Seq<char>, bool), Seq<char>>) -> bool {
    match o {
        Ok((p, c)) => r matches Ok((x, y)) && x@ == p && y == c,
        Err(m) => r matches Err(Error::Io { message, source }) && message@ == m && source is None,
    }
}

/// A directory made ready for use: created when missing (`create_missing`)
/// or refused when missing, refused when not a directory, then
/// canonicalized. Returns the canonical path and whether it was created
/// (see `dir_outcome`, for the answers the file system gave).
fn validated_dir<F: FileSystem>(fs: &F, path: &str, name: &str, create_missing: bool) -> (r: Result<(String, bool), Error>)
    ensures
        exists|meta: Result<FileMetadata, Error>, create: Result<(), Error>, canon: Result<String, Error>|
            #[trigger] dir_result_is(r, dir_outcome(path@, name@, create_missing, meta, create, canon))
            && dir_answers(fs, path@, create_missing, meta, create, canon),
{
    let meta = fs.metadata(path);
    let ghost create_g: Result<(), Error> = Ok(());
    let ghost canon_g: Result<String, Error> = arbitrary();
    let missing = match check_directory(path, name, &meta) {
        Ok(m) => m,
        Err(e) => {
            assert(dir_result_is(Err(e), dir_outcome(path@, name@, create_missing, meta, create_g, canon_g)));
            return Err(e);
        },
    };
    if missing {
        if create_missing {
            let c = fs.create_dir_all(path);
            proof { create_g = c; }
            match c {
                Ok(()) => {},
                Err(e) => {
                    let r = failure("Failed to create ", name, path, &e);
                    assert(dir_result_is(Err(r), dir_outcome(path@, name@, create_missing, meta, create_g, canon_g)));
                    return Err(r);
                },
            }
        } else {
            let mut v = chars_of(name);
            push_str(&mut v, " '");
            push_str(&mut v, path);
            push_str(&mut v, "' does not exist");
            let r = io_error(v);
            assert(dir_result_is(Err(r), dir_outcome(path@, name@, create_missing, meta, create_g, canon_g)));
            return Err(r);
        }
    }
    let c = fs.canonicalize(path);
    proof { canon_g = c; }
    let r = match c {
        Ok(p) => Ok((p, missing)),
        Err(e) => Err(failure("Failed to canonicalize ", name, path, &e)),
    };
    assert(dir_result_is(r, dir_outcome(path@, name@, create_missing, meta, create_g, canon_g)));
    assert(dir_answers(fs, path@, create_missing, meta, create_g, canon_g));
    r
}

/// `r` is the outcome `o` (see `dir_result_is`).
pub open spec fn session_path_is(r: Result<SessionPath, Error>, o: Result<(Seq<char>, bool), Seq<char>>) -> bool {
    match o {
        Ok((p, c)) => r matches Ok(s) && s.spec_path() == p && s.spec_created() == c,
        Err(m) => r matches Err(Error::Io { message, source }) && message@ == m && source is None,
    }
}

/// `r` is the outcome `o`, the flag aside (see `dir_result_is`).
pub open spec fn home_path_is(r: Result<HomePath, Error>, o: Result<(Seq<char>, bool), Seq<char>>) -> bool {
    match o {
        Ok((p, _)) => r matches Ok(h) && h.spec_path() == p,
        Err(m) => r matches Err(Error::Io { message, source }) && message@ == m && source is None,
    }
}

/// A session directory, created if it was missing, by its canonical path.
pub struct SessionPath {
    path: String,
    created: bool,
}

impl SessionPath {
    /// Makes the session directory ready: creates it when missing, refuses a
    /// path that is not a directory, and keeps its canonical path.
    /// (See `dir_outcome`, for the answers the file system gave.)
    pub fn new<F: FileSystem>(fs: &F, path: &str) -> (r: Result<SessionPath, Error>)
        ensures
            exists|meta: Result<FileMetadata, Error>, create: Result<(), Error>, canon: Result<String, Error>|
                #[trigger] session_path_is(r, dir_outcome(path@, "session directory"@, true, meta, create, canon))
                && dir_answers(fs, path@, true, meta, create, canon),
    {
        let v = validated_dir(fs, path, "session directory", true);
        let ghost (m, c, k) = choose|meta: Result<FileMetadata, Error>, create: Result<(), Error>, canon: Result<String, Error>|
            #[trigger] dir_result_is(v, dir_outcome(path@, "session directory"@, true, meta, create, canon))
            && dir_answers(fs, path@, true, meta, create, canon);
        let r = match v {
            Ok((p, created)) => Ok(SessionPath { path: p, created }),
            Err(e) => Err(e),
        };
        assert(session_path_is(r, dir_outcome(path@, "session directory"@, true, m, c, k)));
        r
    }

    pub closed spec fn spec_path(&self) -> Seq<char> {
        self.path@
    }

    pub closed spec fn spec_created(&self) -> bool {
        self.created
    }

    /// The canonical path.
    pub fn path(&self) -> (r: &String)
        ensures r@ == self.spec_path(),
    {
        &self.path
    }

    /// Whether this call created the directory.
    pub fn created(&self) -> (r: bool)
        ensures r == self.spec_created(),
    {
        self.created
    }
}

/// An existing home directory, by its canonical path.
pub struct HomePath {
    path: String,
}

impl HomePath {
    /// Accepts an existing directory as the home directory and keeps its
    /// canonical path; a missing path or one that is not a directory is an
    /// I/O error.
    /// (See `dir_outcome`, for the answers the file system gave; a missing
    /// path is never created.)
    pub fn new<F: FileSystem>(fs: &F, path: &str) -> (r: Result<HomePath, Error>)
        ensures
            exists|meta: Result<FileMetadata, Error>, create: Result<(), Error>, canon: Result<String, Error>|
                #[trigger] home_path_is(r, dir_outcome(path@, "home directory"@, false, meta, create, canon))
                && dir_answers(fs, path@, false, meta, create, canon),
    {
        let v = validated_dir(fs, path, "home directory", false);
        let ghost (m, c, k) = choose|meta: Result<FileMetadata, Error>, create: Result<(), Error>, canon: Result<String, Error>|
            #[trigger] dir_result_is(v, dir_outcome(path@, "home directory"@, false, meta, create, canon))
            && dir_answers(fs, path@, false, meta, create, canon);
        let r = match v {
            Ok((p, _)) => Ok(HomePath { path: p }),
            Err(e) => Err(e),
        };
        assert(home_path_is(r, dir_outcome(path@, "home directory"@, false, m, c, k)));
        r
    }

    pub closed spec fn spec_path(&self) -> Seq<char> {
        self.path@
    }

    pub fn path(&self) -> (r: &String)
        ensures r@ == self.spec_path(),
    {
        &self.path
    }
}

/// What opening a session gives, for each answer of the file system (see
/// `dir_outcome`; `write` from writing the version file, asked only when the
/// session directory was just created): the canonical session directory and
/// the home directory as given, or an error message.
pub open spec fn session_outcome(
    session_dir: Seq<char>,
    home_dir: Seq<char>,
    meta: Result<FileMetadata, Error>,
    create: Result<(), Error>,
    canon: Result<String, Error>,
    write: Result<(), Error>,
) -> Result<(Seq<char>, Seq<char>), Seq<char>> {
    match dir_outcome(session_dir, "session directory"@, true, meta, create, canon) {
        Err(m) => Err(m),
        Ok((p, created)) => if created && write is Err {
            Err("Failed to write session schema version file '"@ + version_file_path(p) + "': "@ + write->Err_0.spec_message())
        } else {
            Ok((p, home_dir))
        },
    }
}

/// The session directory that opening a session has just created, if any
/// (see `dir_outcome`): its version file is then written.
pub open spec fn created_session_dir(
    session_dir: Seq<char>,
    meta: Result<FileMetadata, Error>,
    create: Result<(), Error>,
    canon: Result<String, Error>,
) -> Option<Seq<char>> {
    match dir_outcome(session_dir, "session directory"@, true, meta, create, canon) {
        Ok((p, true)) => Some(p),
        _ => None,
    }
}

/// The version file of a session directory and what a new session writes
/// into it: the latest schema version on a line of its own.
pub fn version_file(session_dir: &str) -> (r: (String, String))
    ensures
        r.0@ == version_file_path(session_dir@),
        r.1@ == "2\n"@,
{
    let path = join(session_dir, SESSION_SCHEMA_VERSION_FILE);
    let mut content = decimal_chars(SESSION_SCHEMA_LATEST as u64);
    content.push('\n');
    proof {
        reveal_strlit("2\n");
        assert(decimal(2) =~= seq!['2']);
    }
    assert(content@ =~= "2\n"@);
    (path, string_from_chars(content.as_slice()))
}

/// `r` is the outcome `o`: the same directories, or an I/O error (with no
/// source) carrying the same message.
pub open spec fn session_is(r: Result<Session, Error>, o: Result<(Seq<char>, Seq<char>), Seq<char>>) -> bool {
    match o {
        Ok((d, h)) => r matches Ok(s) && s.spec_session_dir() == d && s.spec_aish_home() == h,
        Err(m) => r matches Err(Error::Io { message, source }) && message@ == m && source is None,
    }
}

/// A session: its (canonical) directory and the home directory.
pub struct Session {
    session_dir: String,
    home_dir: String,
}

impl Session {
    /// Opens a session: makes its directory ready (see `SessionPath::new`) and,
    /// only when the directory was just created, writes the latest schema
    /// version into its version file. The home directory need not exist.
    /// (See `session_outcome`, for the answers the file system gave.)
    pub fn new<F: FileSystem>(fs: &F, session_dir: &str, home_dir: &str) -> (r: Result<Session, Error>)
        ensures
            exists|meta: Result<FileMetadata, Error>, create: Result<(), Error>, canon: Result<String, Error>, write: Result<(), Error>|
                #[trigger] session_is(r, session_outcome(session_dir@, home_dir@, meta, create, canon, write))
                && dir_answers(fs, session_dir@, true, meta, create, canon)
                && match created_session_dir(session_dir@, meta, create, canon) {
                    Some(p) => fs.write_answer(version_file_path(p), "2\n"@, write),
                    None => true,
                },
    {
        let v = SessionPath::new(fs, session_dir);
        let ghost (m, c, k) = choose|meta: Result<FileMetadata, Error>, create: Result<(), Error>, canon: Result<String, Error>|
            #[trigger] session_path_is(v, dir_outcome(session_dir@, "session directory"@, true, meta, create, canon))
            && dir_answers(fs, session_dir@, true, meta, create, canon);
        let ghost w: Result<(), Error> = Ok(());
        let sp = match v {
            Ok(sp) => sp,
            Err(e) => {
                assert(session_is(Err(e), session_outcome(session_dir@, home_dir@, m, c, k, w)));
                return Err(e);
            },
        };
        let created = sp.created();
        let dir = sp.path().clone();
        if created {
            let (version_path, text) = version_file(dir.as_str());
            let wr = fs.write(version_path.as_str(), text.as_str());
            proof { w = wr; }
            match wr {
                Ok(()) => {},
                Err(e) => {
                    let mut v = chars_of("Failed to write session schema version file '");
                    push_str(&mut v, version_path.as_str());
                    push_str(&mut v, "': ");
                    let ce = e.message();
                    push_str(&mut v, ce.as_str());
                    let r = io_error(v);
                    assert(version_path@ == version_file_path(dir@));
                    assert(session_is(Err(r), session_outcome(session_dir@, home_dir@, m, c, k, w)));
                    return Err(r);
                },
            }
        }
        let r = Ok(Session { session_dir: dir, home_dir: String::from_str(home_dir) });
        assert(session_is(r, session_outcome(session_dir@, home_dir@, m, c, k, w)));
        r
    }

    pub closed spec fn spec_session_dir(&self) -> Seq<char> {
        self.session_dir@
    }

    pub closed spec fn spec_aish_home(&self) -> Seq<char> {
        self.home_dir@
    }

    pub fn session_dir(&self) -> (r: &String)
        ensures r@ == self.spec_session_dir(),
    {
        &self.session_dir
    }

    /// The home directory (the value `AISH_HOME` stands for).
    pub fn aish_home(&self) -> (r: &String)
        ensures r@ == self.spec_aish_home(),
    {
        &self.home_dir
    }
}

} // verus!
