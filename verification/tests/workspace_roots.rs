use mcpmux::workspace::{find_longest_prefix_binding, longest_prefix_match, normalize_workspace_root};

#[test]
fn test_normalize_file_uri_unix() {
    assert_eq!(normalize_workspace_root("file:///home/user/proj"), "/home/user/proj");
}

#[test]
fn test_normalize_trailing_sep() {
    let n = normalize_workspace_root("/foo/bar/");
    assert!(!n.ends_with('/') || n.len() <= 3, "got {n}");
}

#[test]
fn test_percent_decoded() {
    let n = normalize_workspace_root("file:///home/user/my%20project");
    assert!(n.ends_with("my project"));
}

#[test]
fn test_longest_prefix_match_exact() {
    let bindings = ["/a", "/a/b", "/a/b/c"];
    assert_eq!(longest_prefix_match("/a/b/c", &bindings), Some("/a/b/c"));
    assert_eq!(longest_prefix_match("/a/b/c/d", &bindings), Some("/a/b/c"));
    assert_eq!(longest_prefix_match("/a/b", &bindings), Some("/a/b"));
}

#[test]
fn test_longest_prefix_no_false_partial() {
    let bindings = ["/a/b"];
    assert_eq!(longest_prefix_match("/a/b-extra", &bindings), None);
}

#[test]
fn test_longest_prefix_empty_candidates() {
    let bindings: [&str; 0] = [];
    assert_eq!(longest_prefix_match("/a", &bindings), None);
}

#[test]
fn test_crud_and_prefix_match() {
    let bindings = vec!["/home/user/projects".to_string(), "/home/user/projects/foo".to_string()];
    let found = find_longest_prefix_binding(&bindings, &vec!["/home/user/projects/foo".to_string()]);
    assert_eq!(found, Some(1));
    let found = find_longest_prefix_binding(&bindings, &vec!["/home/user/projects/foo/src".to_string()]);
    assert_eq!(found, Some(1));
    let found = find_longest_prefix_binding(&bindings, &vec![]);
    assert_eq!(found, None);
}

#[test]
fn roots_without_percent_escapes_only_lose_scheme_and_trailing_slashes() {
    assert_eq!(normalize_workspace_root("file:///home/user/proj"), "/home/user/proj");
    assert_eq!(normalize_workspace_root("file://localhost/srv/app//"), "/srv/app");
    assert_eq!(normalize_workspace_root("/tmp/x/"), "/tmp/x");
    assert_eq!(normalize_workspace_root("///"), "/");
}

use mcpmux::workspace::{longest_prefix_match_on, normalize_workspace_root_for};

#[test]
fn test_normalize_windows_drive_letter_case_insensitive() {
    assert_eq!(
        normalize_workspace_root_for("D:\\Projects\\Foo", true),
        normalize_workspace_root_for("d:\\Projects\\Foo", true)
    );
    assert_eq!(normalize_workspace_root_for("D:", true), "d:\\");
}

#[test]
fn test_normalize_windows_file_uri() {
    assert_eq!(
        normalize_workspace_root_for("file:///D:/Projects/Foo", true),
        "d:\\Projects\\Foo"
    );
}

#[test]
fn windows_roots_keep_separators_and_match_at_backslashes() {
    assert_eq!(normalize_workspace_root_for("C:\\work\\app\\\\", true), "c:\\work\\app");
    assert_eq!(normalize_workspace_root_for("/", true), "\\");
    assert_eq!(normalize_workspace_root_for("file:///home/x/", false), "/home/x");
    let cands = ["c:\\work", "c:\\work\\app", "c:\\workshop"];
    assert_eq!(longest_prefix_match_on("c:\\work\\app\\src", &cands, true), Some("c:\\work\\app"));
    assert_eq!(longest_prefix_match_on("c:\\work\\other", &cands, true), Some("c:\\work"));
    assert_eq!(longest_prefix_match_on("c:\\work\\other", &cands, false), None);
}
