use claude_pilot::paths::{is_safe_relative_path, join_path, normalize_path, paths_overlap};

fn norm(p: &str) -> Option<String> {
    normalize_path(p)
}

#[test]
fn validation_test_normalize_path() {
    assert_eq!(norm("src/main.rs"), Some("src/main.rs".to_string()));
    assert_eq!(norm("./src/lib.rs"), Some("src/lib.rs".to_string()));
    assert_eq!(norm("src/./foo/./bar.rs"), Some("src/foo/bar.rs".to_string()));
    assert_eq!(norm("src/foo/../bar.rs"), Some("src/bar.rs".to_string()));
    assert_eq!(norm("../outside.rs"), None);
    assert_eq!(norm("src/../../outside.rs"), None);
    assert_eq!(norm("/etc/passwd"), None);
    assert_eq!(norm("."), None);
    assert_eq!(norm(""), None);
}

#[test]
fn validation_test_is_safe_relative_path_accepts_valid() {
    assert!(is_safe_relative_path("src/main.rs"));
    assert!(is_safe_relative_path("foo/bar/baz.txt"));
    assert!(is_safe_relative_path("file.txt"));
    assert!(is_safe_relative_path("./src/lib.rs"));
    assert!(is_safe_relative_path("src/foo/../bar.rs"));
}

#[test]
fn validation_test_is_safe_relative_path_rejects_traversal() {
    assert!(!is_safe_relative_path("../outside.rs"));
    assert!(!is_safe_relative_path("src/../../outside.rs"));
    assert!(!is_safe_relative_path(".."));
    assert!(!is_safe_relative_path("./../../etc/passwd"));
}

#[test]
fn validation_test_is_safe_relative_path_rejects_absolute() {
    assert!(!is_safe_relative_path("/etc/passwd"));
    assert!(!is_safe_relative_path("/usr/bin/sh"));
}

#[test]
fn validation_test_is_safe_relative_path_rejects_empty() {
    assert!(!is_safe_relative_path(""));
    assert!(!is_safe_relative_path("."));
}

#[test]
fn tests_test_normalize_path() {
    assert_eq!(norm("src/main.rs"), Some("src/main.rs".to_string()));
    assert_eq!(norm("./src/lib.rs"), Some("src/lib.rs".to_string()));
    assert_eq!(norm("src/./foo/./bar.rs"), Some("src/foo/bar.rs".to_string()));
    assert_eq!(norm("src/foo/../bar.rs"), Some("src/bar.rs".to_string()));
    assert_eq!(norm("../outside.rs"), None);
    assert_eq!(norm("src/../../outside.rs"), None);
    assert_eq!(norm("/etc/passwd"), None);
    assert_eq!(norm("."), None);
    assert_eq!(norm(""), None);
}

#[test]
fn tests_test_is_safe_relative_path_accepts_valid() {
    assert!(is_safe_relative_path("src/main.rs"));
    assert!(is_safe_relative_path("foo/bar/baz.txt"));
    assert!(is_safe_relative_path("file.txt"));
    assert!(is_safe_relative_path("./src/lib.rs"));
    assert!(is_safe_relative_path("src/foo/../bar.rs"));
}

#[test]
fn tests_test_is_safe_relative_path_rejects_traversal() {
    assert!(!is_safe_relative_path("../outside.rs"));
    assert!(!is_safe_relative_path("src/../../outside.rs"));
    assert!(!is_safe_relative_path(".."));
    assert!(!is_safe_relative_path("./../../etc/passwd"));
}

#[test]
fn tests_test_is_safe_relative_path_rejects_absolute() {
    assert!(!is_safe_relative_path("/etc/passwd"));
    assert!(!is_safe_relative_path("/usr/bin/sh"));
}

#[test]
fn tests_test_is_safe_relative_path_rejects_empty() {
    assert!(!is_safe_relative_path(""));
    assert!(!is_safe_relative_path("."));
}

#[test]
fn normalize_is_idempotent_on_examples() {
    for p in ["a/./b/../c", "./x//y/", "a/b/c/../../d"] {
        let n = norm(p).unwrap();
        assert_eq!(norm(&n), Some(n.clone()));
    }
}

#[test]
fn overlap_is_by_components() {
    assert!(paths_overlap("src/foo/bar.rs", "src/foo"));
    assert!(paths_overlap("src/foo", "src/foo/bar.rs"));
    assert!(paths_overlap("src//foo/", "src/foo"));
    assert!(!paths_overlap("src/foobar", "src/foo"));
}

#[test]
fn join_path_like_std() {
    assert_eq!(join_path("a", "b"), "a/b");
    assert_eq!(join_path("a/", "b"), "a/b");
    assert_eq!(join_path("", "b"), "b");
    assert_eq!(join_path("a", "/b"), "/b");
}
