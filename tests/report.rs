use deadfiles::printer::{report, DeadFile, Hyperlink, Printable, TerminalPrinter};
use deadfiles::reach::{
    build_imported_set, dead_files, find_dead_files, is_entrypoint, Candidate,
    SourceFile,
};
use deadfiles::idiom::has_main_idiom;
use deadfiles::order::insert_sorted;
use deadfiles::resolve::{PathKinds, RawImport};
use deadfiles::root::{ancestors, find_project_root, root_markers};
use std::time::Duration;

fn strings(v: &[&str]) -> Vec<String> {
    v.iter().map(|s| s.to_string()).collect()
}

fn cand(path: &str, is_entrypoint: bool) -> Candidate {
    Candidate { path: path.to_string(), is_entrypoint }
}

#[test]
fn initializer_is_entrypoint() {
    assert!(is_entrypoint(&"/r/pkg/__init__.py".to_string(), false));
    assert!(is_entrypoint(&"__init__.py".to_string(), false));
    assert!(!is_entrypoint(&"/r/pkg/not__init__.py".to_string(), false));
    assert!(is_entrypoint(&"/r/run.py".to_string(), true));
    assert!(!is_entrypoint(&"/r/run.py".to_string(), false));
}

#[test]
fn initializer_never_reported_dead() {
    let path = "/r/pkg/__init__.py";
    let c = cand(path, is_entrypoint(&path.to_string(), false));
    let dead = dead_files(&vec![c], &vec![], &"/r".to_string());
    assert!(dead.is_empty());
}

#[test]
fn end_to_end_one_dead_file() {
    let root = "/r".to_string();
    let files = vec![
        SourceFile { path: "/r/a.py".to_string(), statements: vec![] },
        SourceFile {
            path: "/r/b.py".to_string(),
            statements: vec![RawImport::Import { names: strings(&["os"]) }],
        },
    ];
    let k = PathKinds::new(&root, &vec![], &strings(&["/r/a.py", "/r/b.py"])).unwrap();
    let a_text = "x = 1\n";
    let b_text = "import os\nif __name__ == '__main__':\n    pass\n";
    let candidates = vec![
        cand("/r/a.py", is_entrypoint(&"/r/a.py".to_string(), has_main_idiom(a_text).unwrap())),
        cand("/r/b.py", is_entrypoint(&"/r/b.py".to_string(), has_main_idiom(b_text).unwrap())),
    ];
    assert_eq!(find_dead_files(&files, &candidates, &root, &k), strings(&["a.py"]));
}

#[test]
fn imported_file_is_live() {
    let root = "/r".to_string();
    let files = vec![
        SourceFile { path: "/r/a.py".to_string(), statements: vec![] },
        SourceFile {
            path: "/r/b.py".to_string(),
            statements: vec![RawImport::Import { names: strings(&["a"]) }],
        },
    ];
    let k = PathKinds::new(&root, &vec![], &strings(&["/r/a.py", "/r/b.py"])).unwrap();
    let candidates = vec![cand("/r/a.py", false), cand("/r/b.py", true)];
    assert!(find_dead_files(&files, &candidates, &root, &k).is_empty());
}

#[test]
fn unimported_file_without_idiom_is_dead() {
    let root = "/r".to_string();
    let files = vec![SourceFile { path: "/r/b.py".to_string(), statements: vec![] }];
    let k = PathKinds::new(&root, &vec![], &strings(&["/r/a.py", "/r/b.py"])).unwrap();
    let candidates = vec![cand("/r/a.py", false), cand("/r/b.py", false)];
    assert_eq!(find_dead_files(&files, &candidates, &root, &k), strings(&["a.py", "b.py"]));
}

#[test]
fn package_import_keeps_only_initializer() {
    let root = "/r".to_string();
    let files = vec![SourceFile {
        path: "/r/main.py".to_string(),
        statements: vec![RawImport::Import { names: strings(&["pkg"]) }],
    }];
    let k = PathKinds::new(&root, &strings(&["/r/pkg"]), &vec![]).unwrap();
    let imported = build_imported_set(&files, &root, &k);
    assert_eq!(imported, strings(&["pkg.__init__"]));
    let candidates = vec![cand("/r/pkg/mod.py", false), cand("/r/pkg/__init__.py", true)];
    assert_eq!(find_dead_files(&files, &candidates, &root, &k), strings(&["pkg/mod.py"]));
}

#[test]
fn invalid_relative_import_adds_nothing() {
    let root = "/r".to_string();
    let files = vec![SourceFile {
        path: "/r/a.py".to_string(),
        statements: vec![
            RawImport::ImportFrom { module: None, names: strings(&["x"]), level: Some(9) },
            RawImport::Import { names: strings(&["y"]) },
        ],
    }];
    let k = PathKinds::new(&root, &vec![], &vec![]).unwrap();
    assert_eq!(build_imported_set(&files, &root, &k), strings(&["y"]));
}

#[test]
fn report_is_sorted_and_deterministic() {
    let root = "/r".to_string();
    let candidates = vec![
        cand("/r/z.py", false),
        cand("/r/a/b.py", false),
        cand("/r/m.py", false),
        cand("/r/z.py", false),
    ];
    let first = dead_files(&candidates, &vec![], &root);
    let second = dead_files(&candidates, &vec![], &root);
    assert_eq!(first, strings(&["a/b.py", "m.py", "z.py"]));
    assert_eq!(first, second);
    let mut reversed = candidates;
    reversed.reverse();
    assert_eq!(dead_files(&reversed, &vec![], &root), first);
}

#[test]
fn sorted_insert_keeps_each_once() {
    let mut v = strings(&["b", "d"]);
    insert_sorted(&mut v, "c".to_string());
    insert_sorted(&mut v, "a".to_string());
    insert_sorted(&mut v, "d".to_string());
    assert_eq!(v, strings(&["a", "b", "c", "d"]));
}

#[test]
fn ancestors_nearest_first() {
    assert_eq!(ancestors(&"/a/b/c".to_string()), strings(&["/a/b/c", "/a/b", "/a", "/"]));
}

#[test]
fn project_root_is_first_marked_ancestor() {
    let dirs = strings(&["/a/b/c", "/a/b", "/a", "/"]);
    assert_eq!(
        find_project_root(&dirs, &vec![false, true, true, false]),
        Some("/a/b".to_string())
    );
    assert_eq!(find_project_root(&dirs, &vec![false, false, false, false]), None);
    assert_eq!(root_markers(), strings(&["setup.py", "pyproject.toml", ".git"]));
}

#[test]
fn hyperlink_text() {
    let link = Hyperlink { uri: "file:///x".to_string(), id: None };
    assert_eq!(link.render(false), "\x1b]8;;file:///x\x1b\\");
    assert_eq!(link.render(true), "\x1b]8;;\x1b\\");
    let link = Hyperlink { uri: "u".to_string(), id: Some("7".to_string()) };
    assert_eq!(link.render(false), "\x1b]8;id=7;u\x1b\\");
}

#[test]
fn printer_lines() {
    let p = TerminalPrinter;
    assert_eq!(p.separator_line(3), "---");
    assert_eq!(p.separator_line(0), "");
    let f = DeadFile { repr: "a.py".to_string(), full_path: "/r/a.py".to_string() };
    assert_eq!(p.dead_file_line(&f), "\x1b]8;;file:///r/a.py\x1b\\a.py\x1b]8;;\x1b\\");
}

#[test]
fn report_items_by_mode() {
    let dead = strings(&["a.py", "b/c.py"]);
    let root = "/r".to_string();
    let items = report(&dead, &root, 5, Duration::from_millis(3), true);
    assert_eq!(items.len(), 5);
    assert!(matches!(items[0], Printable::Separator));
    match &items[2] {
        Printable::DeadFile(f) => {
            assert_eq!(f.repr, "b/c.py");
            assert_eq!(f.full_path, "/r/b/c.py");
        }
        _ => panic!("expected a dead file"),
    }
    assert!(matches!(items[3], Printable::Separator));
    match &items[4] {
        Printable::Stats(s) => {
            assert_eq!(s.dead_files, 2);
            assert_eq!(s.scanned_files, 5);
        }
        _ => panic!("expected stats"),
    }
    let plain = report(&dead, &root, 5, Duration::from_millis(3), false);
    assert_eq!(plain.len(), 2);
    assert!(matches!(plain[0], Printable::DeadFile(_)));
}
