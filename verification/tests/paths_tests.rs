use xquery_lsp::documents::DocumentStore;
use xquery_lsp::paths::{db_relative, file_rel_paths, resolve_db_path, split_segments, FsPath};

fn fs(absolute: bool, parts: &[&str]) -> FsPath {
    FsPath { absolute, parts: parts.iter().map(|p| String::from(*p)).collect() }
}

#[test]
fn segments_skip_empty_pieces() {
    assert_eq!(split_segments("/db//apps/x/"), vec!["db", "apps", "x"]);
    assert!(split_segments("").is_empty());
    assert!(split_segments("///").is_empty());
    assert_eq!(split_segments("a"), vec!["a"]);
}

#[test]
fn relative_database_paths() {
    assert_eq!(db_relative("/db/apps/x", "/db/apps/x/modules/util.xqm"), vec!["modules", "util.xqm"]);
    assert_eq!(db_relative("/db/apps/x/modules", "/db/apps/lib/a.xqm"), vec!["..", "..", "lib", "a.xqm"]);
    assert!(db_relative("/db/apps", "/db/apps/").is_empty());
}

#[test]
fn resolve_into_the_mirrored_directory() {
    let dir = fs(true, &["home", "me", "proj", "modules"]);
    let r = resolve_db_path("/db/apps/x/lib/a.xqm", "/db/apps/x/modules", &dir);
    assert!(r.absolute);
    assert_eq!(r.parts, vec!["home", "me", "proj", "lib", "a.xqm"]);
}

#[test]
fn resolve_does_not_climb_above_the_root() {
    let dir = fs(true, &["a"]);
    let r = resolve_db_path("/x/y", "/p/q/r", &dir);
    assert_eq!(r.parts, vec!["x", "y"]);
}

#[test]
fn resolve_skips_current_directory_segments() {
    let dir = fs(true, &["w"]);
    let r = resolve_db_path("/db/./m.xqm", "/db", &dir);
    assert_eq!(r.parts, vec!["w", "m.xqm"]);
}

#[test]
fn file_paths_relative_to_workspace() {
    let ws = fs(true, &["home", "me", "proj"]);
    let file = fs(true, &["home", "me", "proj", "modules", "a.xq"]);
    let (p, d) = file_rel_paths(Some(&file), Some(&ws));
    assert_eq!((p.as_str(), d.as_str()), ("modules/a.xq", "modules"));
    let top = fs(true, &["home", "me", "proj", "a.xq"]);
    let (p, d) = file_rel_paths(Some(&top), Some(&ws));
    assert_eq!((p.as_str(), d.as_str()), ("a.xq", ""));
}

#[test]
fn file_outside_workspace_has_no_relative_path() {
    let ws = fs(true, &["home", "me", "proj"]);
    let file = fs(true, &["tmp", "a.xq"]);
    assert_eq!(file_rel_paths(Some(&file), Some(&ws)), (String::new(), String::new()));
    assert_eq!(file_rel_paths(None, Some(&ws)), (String::new(), String::new()));
    assert_eq!(file_rel_paths(Some(&file), None), (String::new(), String::new()));
}

#[test]
fn store_reads_back_what_was_written() {
    let mut store = DocumentStore::new();
    assert!(store.get("file:///a.xq").is_none());
    store.insert(String::from("file:///a.xq"), String::from("1"));
    store.insert(String::from("file:///b.xq"), String::from("2"));
    assert_eq!(store.get("file:///a.xq").map(|s| s.as_str()), Some("1"));
    store.insert(String::from("file:///a.xq"), String::from("3"));
    assert_eq!(store.get("file:///a.xq").map(|s| s.as_str()), Some("3"));
    assert_eq!(store.get("file:///b.xq").map(|s| s.as_str()), Some("2"));
    store.remove("file:///a.xq");
    assert!(store.get("file:///a.xq").is_none());
    assert_eq!(store.get("file:///b.xq").map(|s| s.as_str()), Some("2"));
    store.remove("file:///never-opened.xq");
    assert_eq!(store.get("file:///b.xq").map(|s| s.as_str()), Some("2"));
}
