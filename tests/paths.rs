use deadfiles::order::less_than;
use deadfiles::paths::{
    ends_with, join, parent, relative_file, replace_char, starts_with, to_dotted, to_path,
};

#[test]
fn dotted_name_of_a_source_file() {
    assert_eq!(to_dotted("/r/pkg/mod.py", "/r"), "pkg.mod");
    assert_eq!(to_dotted("/r/pkg/sub", "/r"), "pkg.sub");
    assert_eq!(to_dotted("/elsewhere/x.py", "/r"), ".elsewhere.x");
}

#[test]
fn path_and_dotted_name_round_trip() {
    for rel in ["a.py", "pkg/mod.py", "pkg/sub/__init__.py", "x/y/z/w.py"] {
        let full = format!("/home/u/proj/{}", rel);
        let d = to_dotted(&full, "/home/u/proj");
        assert_eq!(to_path(&d, "/home/u/proj"), full);
    }
    assert_eq!(to_dotted(&to_path("a.b.c", "/p"), "/p"), "a.b.c");
}

#[test]
fn relative_file_of_dotted_name() {
    assert_eq!(relative_file("pkg.mod"), "pkg/mod.py");
    assert_eq!(relative_file("a"), "a.py");
}

#[test]
fn text_helpers() {
    assert_eq!(replace_char("a.b.c", '.', "/"), "a/b/c");
    assert!(starts_with("/r/a", "/r/"));
    assert!(!starts_with("/r", "/r/"));
    assert!(ends_with("x.py", ".py"));
    assert!(!ends_with("py", ".py"));
    assert_eq!(join("/r", "a"), "/r/a");
    assert_eq!(join("/", "a"), "/a");
}

#[test]
fn parents_of_paths() {
    assert_eq!(parent("/e/f/g/h.py"), Some("/e/f/g".to_string()));
    assert_eq!(parent("/e"), Some("/".to_string()));
    assert_eq!(parent("/"), None);
    assert_eq!(parent("a"), Some(String::new()));
    assert_eq!(parent(""), None);
}

#[test]
fn text_order_is_by_character() {
    assert!(less_than("a", "b"));
    assert!(less_than("a", "ab"));
    assert!(!less_than("ab", "a"));
    assert!(!less_than("a", "a"));
    assert!(less_than("B", "a"));
}

#[test]
fn codec_under_filesystem_root() {
    assert_eq!(to_dotted("/pkg/mod.py", "/"), "pkg.mod");
    assert_eq!(to_path("pkg.mod", "/"), "/pkg/mod.py");
    assert_eq!(to_dotted("/r/pkg/mod.py", "/r/"), "pkg.mod");
}
