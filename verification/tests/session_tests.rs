use aish::error::Error;
use aish::session::{
    check_directory, check_latest, read_version, require_latest, version_from_content, FileMetadata, FileSystem,
    HomePath, Session, SessionPath, version_file,
};
use std::cell::RefCell;
use std::collections::BTreeMap;

/// An in-memory file system: directories and files by absolute path.
struct MemFs {
    dirs: RefCell<Vec<String>>,
    files: RefCell<BTreeMap<String, String>>,
    fail_writes: bool,
}

impl MemFs {
    fn new() -> MemFs {
        MemFs { dirs: RefCell::new(vec!["/".to_string()]), files: RefCell::new(BTreeMap::new()), fail_writes: false }
    }
    fn is_dir(&self, p: &str) -> bool {
        let t = p.trim_end_matches('/');
        let t = if t.is_empty() { "/" } else { t };
        self.dirs.borrow().iter().any(|d| d == t)
    }
    fn add_dir(&self, p: &str) {
        let mut cur = String::new();
        for part in p.split('/').filter(|s| !s.is_empty()) {
            cur.push('/');
            cur.push_str(part);
            if !self.is_dir(&cur) {
                self.dirs.borrow_mut().push(cur.clone());
            }
        }
    }
}

impl FileSystem for MemFs {
    fn read_to_string(&self, path: &str) -> Result<String, Error> {
        self.files.borrow().get(path).cloned().ok_or_else(|| Error::io_msg("not found"))
    }
    fn write(&self, path: &str, contents: &str) -> Result<(), Error> {
        if self.fail_writes {
            return Err(Error::io_msg("read-only"));
        }
        self.files.borrow_mut().insert(path.to_string(), contents.to_string());
        Ok(())
    }
    fn rename(&self, from: &str, to: &str) -> Result<(), Error> {
        let v = self.files.borrow_mut().remove(from).ok_or_else(|| Error::io_msg("not found"))?;
        self.files.borrow_mut().insert(to.to_string(), v);
        Ok(())
    }
    fn create_dir_all(&self, path: &str) -> Result<(), Error> {
        self.add_dir(path);
        Ok(())
    }
    fn metadata(&self, path: &str) -> Result<FileMetadata, Error> {
        if self.is_dir(path) {
            Ok(FileMetadata::new(0, false, true))
        } else if let Some(c) = self.files.borrow().get(path) {
            Ok(FileMetadata::new(c.len() as u64, true, false))
        } else {
            Err(Error::io_msg("not found"))
        }
    }
    fn remove_file(&self, path: &str) -> Result<(), Error> {
        self.files.borrow_mut().remove(path).map(|_| ()).ok_or_else(|| Error::io_msg("not found"))
    }
    fn remove_dir_all(&self, path: &str) -> Result<(), Error> {
        let prefix = format!("{}/", path);
        self.dirs.borrow_mut().retain(|d| d != path && !d.starts_with(&prefix));
        self.files.borrow_mut().retain(|f, _| !f.starts_with(&prefix));
        Ok(())
    }
    fn read_dir(&self, path: &str) -> Result<Vec<String>, Error> {
        let prefix = format!("{}/", path);
        Ok(self.files.borrow().keys().filter(|k| k.starts_with(&prefix)).cloned().collect())
    }
    fn canonicalize(&self, path: &str) -> Result<String, Error> {
        if self.is_dir(path) || self.files.borrow().contains_key(path) {
            Ok(path.trim_end_matches('/').to_string())
        } else {
            Err(Error::io_msg("not found"))
        }
    }
    fn truncate_file(&self, path: &str) -> Result<(), Error> {
        self.files.borrow_mut().insert(path.to_string(), String::new());
        Ok(())
    }
}

#[test]
fn test_session_new_creates_directory() {
    let fs = MemFs::new();
    fs.add_dir("/tmp/aish_test_home_new");
    let session = Session::new(&fs, "/tmp/aish_test_session_new", "/tmp/aish_test_home_new");
    assert!(session.is_ok());
    assert!(fs.is_dir("/tmp/aish_test_session_new"));
}

#[test]
fn new_session_gets_the_latest_schema_version_file() {
    let fs = MemFs::new();
    Session::new(&fs, "/tmp/s1", "/tmp/h1").unwrap();
    assert_eq!(fs.read_to_string("/tmp/s1/session_schema_version").unwrap(), "2\n");
    assert_eq!(read_version(&fs, "/tmp/s1").unwrap(), 2);
    assert!(require_latest(&fs, "/tmp/s1").is_ok());
}

#[test]
fn test_session_new_with_existing_directory() {
    let fs = MemFs::new();
    fs.add_dir("/tmp/aish_test_session_existing");
    fs.add_dir("/tmp/aish_test_home_existing");
    let session = Session::new(&fs, "/tmp/aish_test_session_existing", "/tmp/aish_test_home_existing");
    assert!(session.is_ok());
    // An existing session gets no version file.
    assert!(fs.read_to_string("/tmp/aish_test_session_existing/session_schema_version").is_err());
}

#[test]
fn test_session_path() {
    let fs = MemFs::new();
    let session = Session::new(&fs, "/tmp/aish_test_session_path", "/tmp/aish_test_home_path").unwrap();
    assert_eq!(session.session_dir().as_str(), "/tmp/aish_test_session_path");
}

#[test]
fn test_session_new_with_nested_path() {
    let fs = MemFs::new();
    let session = Session::new(&fs, "/tmp/aish_test_session_nested/subdir/deep", "/tmp/h");
    assert!(session.is_ok());
    assert!(fs.is_dir("/tmp/aish_test_session_nested/subdir/deep"));
}

#[test]
fn test_session_with_home_dir() {
    let fs = MemFs::new();
    // The home directory need not exist.
    let session = Session::new(&fs, "/tmp/aish_test_session_home", "/tmp/aish_test_home");
    assert!(session.is_ok());
    let session = session.unwrap();
    assert!(fs.is_dir("/tmp/aish_test_session_home"));
    assert_eq!(session.aish_home().as_str(), "/tmp/aish_test_home");
    fs.remove_dir_all("/tmp/aish_test_session_home").unwrap();
    assert!(!fs.is_dir("/tmp/aish_test_session_home"));

    // With the home directory created, opening the session again succeeds.
    fs.create_dir_all("/tmp/aish_test_home").unwrap();
    let session = Session::new(&fs, "/tmp/aish_test_session_home", "/tmp/aish_test_home");
    assert!(session.is_ok());
    let session = session.unwrap();
    assert!(fs.path_exists("/tmp/aish_test_session_home"));
    assert!(fs.is_dir("/tmp/aish_test_session_home"));
    assert!(fs.path_exists("/tmp/aish_test_home"));
    assert!(fs.is_dir("/tmp/aish_test_home"));
    assert_eq!(session.aish_home().as_str(), "/tmp/aish_test_home");

    fs.remove_dir_all("/tmp/aish_test_session_home").unwrap();
    fs.remove_dir_all("/tmp/aish_test_home").unwrap();
}

#[test]
fn session_dir_that_is_a_file_is_refused() {
    let fs = MemFs::new();
    fs.write("/tmp/afile", "x").unwrap();
    match Session::new(&fs, "/tmp/afile", "/tmp/h") {
        Err(Error::Io { message, .. }) => {
            assert_eq!(message, "session directory '/tmp/afile' exists but is not a directory")
        }
        _ => panic!("expected an I/O error"),
    }
}

#[test]
fn failing_version_write_is_reported() {
    let mut fs = MemFs::new();
    fs.fail_writes = true;
    match Session::new(&fs, "/tmp/s2", "/tmp/h") {
        Err(Error::Io { message, .. }) => assert_eq!(
            message,
            "Failed to write session schema version file '/tmp/s2/session_schema_version': read-only"
        ),
        _ => panic!("expected an I/O error"),
    }
}

#[test]
fn test_session_path_new_creates_directory() {
    let fs = MemFs::new();
    let p = SessionPath::new(&fs, "/tmp/aish_test_session_path_new").unwrap();
    assert!(p.created());
    assert!(fs.is_dir("/tmp/aish_test_session_path_new"));
}

#[test]
fn test_session_path_new_with_existing_directory() {
    let fs = MemFs::new();
    fs.add_dir("/tmp/aish_test_session_path_existing");
    let p = SessionPath::new(&fs, "/tmp/aish_test_session_path_existing").unwrap();
    assert!(!p.created());
}

#[test]
fn test_home_path_new_fails_if_not_exists() {
    let fs = MemFs::new();
    match HomePath::new(&fs, "/tmp/aish_test_home_path_not_exists") {
        Err(Error::Io { message, .. }) => {
            assert_eq!(message, "home directory '/tmp/aish_test_home_path_not_exists' does not exist")
        }
        _ => panic!("expected an I/O error"),
    }
}

#[test]
fn test_home_path_new_with_existing_directory() {
    let fs = MemFs::new();
    fs.add_dir("/tmp/aish_test_home_path_existing/");
    let p = HomePath::new(&fs, "/tmp/aish_test_home_path_existing").unwrap();
    assert_eq!(p.path().as_str(), "/tmp/aish_test_home_path_existing");
}

#[test]
fn version_file_contents_are_trimmed_and_checked() {
    assert_eq!(version_from_content(Some(" 2 \n"), "f").unwrap(), 2);
    match version_from_content(None, "/s/session_schema_version") {
        Err(Error::InvalidArgument(m)) => {
            assert_eq!(m, "Session schema version file missing: /s/session_schema_version (run scripts/migrate.sh)")
        }
        _ => panic!("expected a usage error"),
    }
    match version_from_content(Some("two"), "f") {
        Err(Error::InvalidArgument(m)) => {
            assert_eq!(m, "Invalid session schema version 'two': invalid digit found in string (file: f)")
        }
        _ => panic!("expected a usage error"),
    }
    match version_from_content(Some(""), "f") {
        Err(Error::InvalidArgument(m)) => {
            assert_eq!(m, "Invalid session schema version '': cannot parse integer from empty string (file: f)")
        }
        _ => panic!("expected a usage error"),
    }
}

#[test]
fn only_the_latest_version_is_accepted() {
    assert!(check_latest(2, "/s").is_ok());
    match check_latest(1, "/s") {
        Err(Error::InvalidArgument(m)) => {
            assert_eq!(m, "Unsupported session schema version 1 (latest 2). Run scripts/migrate.sh -s /s")
        }
        _ => panic!("expected a usage error"),
    }
}

#[test]
fn directory_check_reports_missing_and_non_directories() {
    let missing: Result<FileMetadata, Error> = Err(Error::io_msg("gone"));
    assert_eq!(check_directory("/p", "home directory", &missing).unwrap(), true);
    let dir: Result<FileMetadata, Error> = Ok(FileMetadata::new(0, false, true));
    assert_eq!(check_directory("/p", "home directory", &dir).unwrap(), false);
    let file: Result<FileMetadata, Error> = Ok(FileMetadata::new(3, true, false));
    assert!(check_directory("/p", "home directory", &file).is_err());
}

#[test]
fn test_session_aish_home() {
    let fs = MemFs::new();
    fs.add_dir("/tmp/aish_test_home2");
    let session = Session::new(&fs, "/tmp/aish_test_session_home2", "/tmp/aish_test_home2").unwrap();
    let canonical_home = fs.canonicalize("/tmp/aish_test_home2").unwrap();
    assert_eq!(session.aish_home().as_str(), canonical_home.as_str());
}

#[test]
fn test_session_path_canonicalize() {
    let fs = MemFs::new();
    let p = SessionPath::new(&fs, "/tmp/aish_test_session_path_canonicalize/").unwrap();
    assert!(p.path().starts_with('/'));
    assert_eq!(p.path().as_str(), "/tmp/aish_test_session_path_canonicalize");
}

#[test]
fn test_home_path_canonicalize() {
    let fs = MemFs::new();
    fs.add_dir("/tmp/aish_test_home_path_canonicalize");
    let p = HomePath::new(&fs, "/tmp/aish_test_home_path_canonicalize/").unwrap();
    assert!(p.path().starts_with('/'));
}

#[test]
fn version_file_is_named_in_the_session_directory() {
    assert_eq!(
        version_file("/s/one"),
        ("/s/one/session_schema_version".to_string(), "2\n".to_string())
    );
}

#[test]
fn copying_a_file_writes_what_was_read() {
    let fs = MemFs::new();
    fs.write("/a", "text").unwrap();
    fs.copy_file("/a", "/b").unwrap();
    assert_eq!(fs.read_to_string("/b").unwrap(), "text");
    assert!(fs.copy_file("/missing", "/c").is_err());
    assert!(fs.path_exists("/b"));
    assert!(!fs.path_exists("/c"));
}
