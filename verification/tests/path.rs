use cocos_engine::utils::path::{
    basename, change_basename, change_extname, dirname, extname, get_separator, join,
    main_filename, normalize, strip_sep,
};

#[test]
fn test_join() {
    assert_eq!(join(&["a", "b", "c"]), "a/b/c");
    assert_eq!(join(&["foo", "bar/"]), "foo/bar");
}

#[test]
fn test_extname() {
    assert_eq!(extname("file.png"), ".png");
    assert_eq!(extname("path/to/file.txt?query"), ".txt");
    assert_eq!(extname("noext"), "");
    assert_eq!(extname(""), "");
}

#[test]
fn test_main_filename() {
    assert_eq!(main_filename("sprite.png"), "sprite");
    assert_eq!(main_filename("noext"), "noext");
}

#[test]
fn test_basename() {
    assert_eq!(basename("path/to/file.png", ""), "file.png");
    assert_eq!(basename("path/to/file.png", ".png"), "file");
    assert_eq!(basename("path/to/file.PNG", ".png"), "file");
}

#[test]
fn test_dirname() {
    assert_eq!(dirname("path/to/file.png"), "path/to");
    assert_eq!(dirname("file.png"), "");
}

#[test]
fn test_change_extname() {
    assert_eq!(change_extname("file.png", ".jpg"), "file.jpg");
    assert_eq!(change_extname("file.png?q=1", ".jpg"), "file.jpg?q=1");
    assert_eq!(change_extname("noext", ".png"), "noext.png");
}

#[test]
fn test_change_basename() {
    assert_eq!(change_basename("path/to/old.png", "new", true), "path/to/new.png");
    assert_eq!(change_basename("path/to/old.png", "new", false), "path/to/new");
}

#[test]
fn test_normalize() {
    assert_eq!(normalize("a/b/../c"), "a/c");
    assert_eq!(normalize("a/../b/../c"), "c");
}

#[test]
fn test_strip_sep() {
    assert_eq!(strip_sep("path/to/"), "path/to");
    assert_eq!(strip_sep("path/to"), "path/to");
}

#[test]
fn test_get_separator() {
    assert_eq!(get_separator(), '/');
}

#[test]
fn path_join_empty_and_backslash() {
    assert_eq!(join(&[]), "");
    assert_eq!(join(&["a\\", "b"]), "a/b");
    assert_eq!(join(&["", "x"]), "x");
}

#[test]
fn path_extname_query_at_start_is_kept() {
    assert_eq!(extname("?a.b"), ".b");
    assert_eq!(extname("dir.d/file"), ".d/file");
}

#[test]
fn path_basename_with_query_and_trailing_sep() {
    assert_eq!(basename("a/b/c/?x=1", ""), "c");
    assert_eq!(basename("a\\b.txt", ".TXT"), "b");
    assert_eq!(basename(".png", ".png"), ".png");
    assert_eq!(basename("héllo.png", ".png"), "héllo");
}

#[test]
fn path_dirname_strips_one_trailing_sep() {
    assert_eq!(dirname("a//b"), "a");
    assert_eq!(dirname("/file"), "");
}

#[test]
fn path_change_basename_root_and_dot_name() {
    assert_eq!(change_basename("/old.png", "new", true), "/new.png");
    assert_eq!(change_basename("a/old.png?v=2", ".jpg", true), "a/old.jpg?v=2");
    assert_eq!(change_basename("old.png", "new", true), "new.png");
}

#[test]
fn path_normalize_edge_cases() {
    assert_eq!(normalize("../a"), "a");
    assert_eq!(normalize("a\\b\\..\\c"), "a/c");
    assert_eq!(normalize("x/a/..\\c"), "x/c");
    assert_eq!(normalize("plain"), "plain");
    assert_eq!(normalize("/a/../b"), "/b");
}

#[test]
fn test_normalize_resolves_every_parent_reference() {
    let r = normalize("a/b/../../c/../d");
    assert!(!r.contains("../"));
    assert!(!r.contains("..\\"));
    assert!(r.len() <= "a/b/../../c/../d".len());
    assert_eq!(normalize(&r), r);
    assert_eq!(normalize("plain/path.txt"), "plain/path.txt");
}
