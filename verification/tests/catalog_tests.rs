use aish::catalog::{
    ancestors, find_project_root, keep_directories, location_candidates, CatalogKind, CatalogScope, StdRuntimeCatalog,
};
use aish::error::Error;
use aish::session::{FileMetadata, FileSystem};

/// A file system that only has directories.
struct Dirs(Vec<&'static str>);

impl FileSystem for Dirs {
    fn read_to_string(&self, _path: &str) -> Result<String, Error> {
        Err(Error::io_msg("no files"))
    }
    fn write(&self, _path: &str, _contents: &str) -> Result<(), Error> {
        Err(Error::io_msg("read-only"))
    }
    fn rename(&self, _from: &str, _to: &str) -> Result<(), Error> {
        Err(Error::io_msg("read-only"))
    }
    fn create_dir_all(&self, _path: &str) -> Result<(), Error> {
        Err(Error::io_msg("read-only"))
    }
    fn metadata(&self, path: &str) -> Result<FileMetadata, Error> {
        if self.0.iter().any(|d| *d == path) {
            Ok(FileMetadata::new(0, false, true))
        } else {
            Err(Error::io_msg("not found"))
        }
    }
    fn remove_file(&self, _path: &str) -> Result<(), Error> {
        Err(Error::io_msg("read-only"))
    }
    fn remove_dir_all(&self, _path: &str) -> Result<(), Error> {
        Err(Error::io_msg("read-only"))
    }
    fn read_dir(&self, _path: &str) -> Result<Vec<String>, Error> {
        Ok(Vec::new())
    }
    fn canonicalize(&self, path: &str) -> Result<String, Error> {
        Ok(path.to_string())
    }
    fn truncate_file(&self, _path: &str) -> Result<(), Error> {
        Err(Error::io_msg("read-only"))
    }
}

fn catalog(dirs: Vec<&'static str>, config: &str, aish_home: Option<&str>, home: Option<&str>, cwd: Option<&str>) -> StdRuntimeCatalog<Dirs> {
    StdRuntimeCatalog::new(
        Dirs(dirs),
        config.to_string(),
        aish_home.map(|s| s.to_string()),
        home.map(|s| s.to_string()),
        cwd.map(|s| s.to_string()),
    )
}

fn found(c: &StdRuntimeCatalog<Dirs>, kind: CatalogKind) -> Vec<String> {
    c.locations(kind).unwrap().into_iter().map(|l| l.path).collect()
}

fn paths(kind: CatalogKind, aish_home: Option<&str>, home: Option<&str>, root: Option<&str>) -> Vec<(CatalogScope, String)> {
    location_candidates(kind, "/cfg/aish", aish_home, home, root)
        .into_iter()
        .map(|l| {
            assert_eq!(l.kind, kind);
            (l.scope, l.path)
        })
        .collect()
}

fn dir_paths(kind: CatalogKind, config_dir: &str, aish_home: Option<&str>, home: Option<&str>, root: Option<&str>) -> Vec<String> {
    location_candidates(kind, config_dir, aish_home, home, root).into_iter().map(|l| l.path).collect()
}

#[test]
fn tasks_locations_with_aish_home() {
    assert_eq!(
        dir_paths(CatalogKind::Tasks, "/tmp/aish_home/config", Some("/tmp/aish_home"), Some("/tmp"), None),
        vec!["/tmp/aish_home/config/task.d".to_string(), "/tmp/aish_home/task.d".to_string()]
    );
    assert_eq!(
        paths(CatalogKind::Tasks, Some("/ah"), Some("/h"), None),
        vec![(CatalogScope::UserConfig, "/cfg/aish/task.d".to_string()), (CatalogScope::LegacyUser, "/ah/task.d".to_string())]
    );
}

#[test]
fn tasks_locations_without_aish_home_prefers_xdg_config_home() {
    assert_eq!(
        dir_paths(CatalogKind::Tasks, "/tmp/xdg_config/aish", None, Some("/tmp"), None),
        vec!["/tmp/xdg_config/aish/task.d".to_string()]
    );
    assert_eq!(paths(CatalogKind::Tasks, Some(""), None, None), vec![(CatalogScope::UserConfig, "/cfg/aish/task.d".to_string())]);
}

#[test]
fn tasks_locations_fall_back_to_home_config() {
    assert_eq!(
        dir_paths(CatalogKind::Tasks, "/tmp/home/.config/aish", None, Some("/tmp/home"), None),
        vec!["/tmp/home/.config/aish/task.d".to_string()]
    );
}

#[test]
fn system_prompt_hooks_locations_ordered_config_legacy_project() {
    assert_eq!(
        paths(CatalogKind::SystemPromptHooks, None, Some("/home/u"), Some("/proj")),
        vec![
            (CatalogScope::UserConfig, "/cfg/aish/hooks/system_prompt".to_string()),
            (CatalogScope::LegacyUser, "/home/u/.aish/hooks/system_prompt".to_string()),
            (CatalogScope::Project, "/proj/.aish/hooks/system_prompt".to_string()),
        ]
    );
}

#[test]
fn plugins_locations_ordered_project_then_config_then_legacy() {
    assert_eq!(
        paths(CatalogKind::Plugins, None, Some("/home/u"), Some("/proj")),
        vec![
            (CatalogScope::Project, "/proj/.aish/plugins".to_string()),
            (CatalogScope::UserConfig, "/cfg/aish/plugins".to_string()),
            (CatalogScope::LegacyUser, "/cfg/aish/plugins.d".to_string()),
            (CatalogScope::LegacyUser, "/home/u/.aish/plugins.d".to_string()),
        ]
    );
}

#[test]
fn skills_locations_ordered_project_then_config() {
    assert_eq!(
        paths(CatalogKind::Skills, None, None, Some("/proj")),
        vec![(CatalogScope::Project, "/proj/.aish/skills".to_string()), (CatalogScope::UserConfig, "/cfg/aish/skills".to_string())]
    );
}

#[test]
fn packages_locations_ordered_project_then_config() {
    assert_eq!(paths(CatalogKind::Packages, None, None, None), vec![(CatalogScope::UserConfig, "/cfg/aish/packages".to_string())]);
}

#[test]
fn only_directories_are_kept() {
    let c = location_candidates(CatalogKind::Plugins, "/cfg", None, Some("/h"), Some("/p"));
    let kept = keep_directories(c, &[false, true, false, true]);
    let v: Vec<String> = kept.into_iter().map(|l| l.path).collect();
    assert_eq!(v, vec!["/cfg/plugins".to_string(), "/h/.aish/plugins.d".to_string()]);
}

#[test]
fn project_root_detects_parent_with_aish_dir() {
    let a = ancestors("/home/u/my_project/src");
    assert_eq!(a, vec!["/home/u/my_project/src", "/home/u/my_project", "/home/u", "/home", "/"]);
    assert_eq!(find_project_root(&a, &[false, true, false, false, false]).as_deref(), Some("/home/u/my_project"));
    assert_eq!(find_project_root(&a, &[false; 5]), None);
    assert_eq!(ancestors("/"), vec!["/"]);
}

#[test]
fn the_catalog_lists_only_existing_directories() {
    let c = catalog(
        vec!["/t/ah/config/task.d", "/t/ah/task.d"],
        "/t/ah/config",
        Some("/t/ah"),
        Some("/t"),
        None,
    );
    assert_eq!(found(&c, CatalogKind::Tasks), vec!["/t/ah/config/task.d".to_string(), "/t/ah/task.d".to_string()]);
    let c = catalog(vec!["/t/xdg/aish/task.d"], "/t/xdg/aish", None, Some("/t"), None);
    assert_eq!(found(&c, CatalogKind::Tasks), vec!["/t/xdg/aish/task.d".to_string()]);
}

#[test]
fn the_catalog_finds_the_project_from_a_nested_directory() {
    let c = catalog(
        vec!["/t/project", "/t/project/.aish", "/t/project/.aish/plugins", "/t/xdg/aish/plugins", "/t/xdg/aish/plugins.d", "/t/home/.aish/plugins.d"],
        "/t/xdg/aish",
        None,
        Some("/t/home"),
        Some("/t/project/src"),
    );
    assert_eq!(c.project_root().as_deref(), Some("/t/project"));
    assert_eq!(
        found(&c, CatalogKind::Plugins),
        vec![
            "/t/project/.aish/plugins".to_string(),
            "/t/xdg/aish/plugins".to_string(),
            "/t/xdg/aish/plugins.d".to_string(),
            "/t/home/.aish/plugins.d".to_string()
        ]
    );
    let none = catalog(vec![], "/t/xdg/aish", None, None, Some("/t/project/src"));
    assert_eq!(none.project_root(), None);
    let unknown = catalog(vec!["/.aish"], "/c", None, None, None);
    assert_eq!(unknown.project_root(), None);
}
