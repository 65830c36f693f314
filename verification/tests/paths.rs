use palpatine::paths::{absolute_path, is_absolute, join, relative_path, same_text};

#[test]
fn rooted_paths_are_absolute() {
    assert!(is_absolute("/"));
    assert!(is_absolute("/a/b"));
    assert!(!is_absolute(""));
    assert!(!is_absolute("a/b"));
    assert!(!is_absolute("./a"));
}

#[test]
fn join_puts_one_separator_between() {
    assert_eq!(join("/repo", "a.py"), "/repo/a.py");
    assert_eq!(join("/repo/", "a.py"), "/repo/a.py");
    assert_eq!(join("/repo/", ".palpatine/index.json"), "/repo/.palpatine/index.json");
    assert_eq!(join("", "a.py"), "a.py");
    assert_eq!(join("/", "a"), "/a");
}

#[test]
fn join_lets_a_rooted_path_stand() {
    assert_eq!(join("/repo", "/etc/hosts"), "/etc/hosts");
}

#[test]
fn join_agrees_with_the_standard_library() {
    for base in ["", "/", "/a", "/a/", "a", "a/b/"] {
        for rel in ["", "x", "x/y", "/x", ".", "../z"] {
            let expected = std::path::Path::new(base).join(rel);
            assert_eq!(join(base, rel), expected.to_string_lossy());
        }
    }
}

#[test]
fn absolute_path_normalises() {
    assert_eq!(absolute_path("/a/b/../c", "/w"), "/a/c");
    assert_eq!(absolute_path("/a/./b//c/", "/w"), "/a/b/c");
    assert_eq!(absolute_path("/..", "/w"), "/");
}

#[test]
fn absolute_path_takes_relative_paths_from_the_working_directory() {
    assert_eq!(absolute_path(".", "/w/x"), "/w/x");
    assert_eq!(absolute_path("src/../lib", "/w"), "/w/lib");
    assert_eq!(absolute_path("..", "/w/x"), "/w");
}

#[test]
fn relative_path_strips_the_root() {
    assert_eq!(relative_path("/repo/a.py", "/repo"), Some(String::from("a.py")));
    assert_eq!(relative_path("/repo/a.py", "/repo/"), Some(String::from("a.py")));
    assert_eq!(relative_path("/repo/src/lib.rs", "/repo/"), Some(String::from("src/lib.rs")));
    assert_eq!(relative_path("/repo", "/repo/"), Some(String::new()));
    assert_eq!(relative_path("/a", "/"), Some(String::from("a")));
}

#[test]
fn relative_path_wants_whole_components() {
    assert_eq!(relative_path("/repository/a.py", "/repo"), None);
    assert_eq!(relative_path("/other/a.py", "/repo"), None);
    assert_eq!(relative_path("/re", "/repo"), None);
    assert_eq!(relative_path("repo/a.py", "/repo"), None);
}

#[test]
fn same_text_compares_characters() {
    assert!(same_text("a/b", "a/b"));
    assert!(same_text("", ""));
    assert!(!same_text("a/b", "a/c"));
    assert!(!same_text("a", "a/"));
}

#[test]
fn relative_path_agrees_with_the_standard_library() {
    for root in ["/", "/repo", "/repo/", "/repo/src", "repo", "/a/b/c/"] {
        for path in ["/", "/repo", "/repo/a.py", "/repo/src/lib.rs", "/repository", "repo/x", "/a/b/c/d", "/a/b", "x"] {
            let expected = std::path::Path::new(path)
                .strip_prefix(root)
                .ok()
                .map(|rest| rest.to_string_lossy().into_owned());
            assert_eq!(relative_path(path, root), expected);
        }
    }
}

#[test]
fn relative_path_passes_over_repeated_separators() {
    assert_eq!(relative_path("/repo//a.py", "/repo"), Some(String::from("a.py")));
    assert_eq!(relative_path("/repo/a.py", "/repo///"), Some(String::from("a.py")));
}
