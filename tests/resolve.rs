use deadfiles::reach::resolve_imports;
use deadfiles::resolve::{resolve_statement, Import, PathKinds, RawImport, ResolveError};

fn strings(v: &[&str]) -> Vec<String> {
    v.iter().map(|s| s.to_string()).collect()
}

fn kinds_at(root: &str, dirs: &[&str], files: &[&str]) -> PathKinds {
    PathKinds::new(&root.to_string(), &strings(dirs), &strings(files)).unwrap()
}

fn kinds(dirs: &[&str], files: &[&str]) -> PathKinds {
    kinds_at("/r", dirs, files)
}

#[test]
fn test_from_import_from() {
    let current_file_path = "/e/f/g/h.py".to_string();
    let python_root = "/e/f".to_string();
    let imports = Import::from_import_from(
        &Some("a.b".to_string()),
        &strings(&["c", "d"]),
        Some(0),
        &current_file_path,
        &python_root,
        &kinds(&[], &[]),
    )
    .unwrap();
    assert_eq!(imports.len(), 2);
    assert_eq!(imports[0], Import::Module("a.b.c".to_string()));
    assert_eq!(imports[1], Import::Module("a.b.d".to_string()));
}

#[test]
fn plain_import_of_directory_is_package() {
    let root = "/r".to_string();
    let k = kinds(&["/r/a", "/r/a/b"], &[]);
    let imports = Import::from_import(&strings(&["a.b"]), &root, &k);
    assert_eq!(imports, vec![Import::Package("a.b".to_string())]);
}

#[test]
fn plain_import_of_file_is_module() {
    let root = "/r".to_string();
    let k = kinds(&["/r/a"], &["/r/a/b.py"]);
    let imports = Import::from_import(&strings(&["a.b", "a"]), &root, &k);
    assert_eq!(
        imports,
        vec![Import::Module("a.b".to_string()), Import::Package("a".to_string())]
    );
}

#[test]
fn relative_level_one_starts_in_own_directory() {
    let root = "/r".to_string();
    let file = "/r/pkg/sub/mod.py".to_string();
    let k = kinds(&["/r/pkg", "/r/pkg/sub", "/r/pkg/sub/w"], &[]);
    let imports =
        Import::from_import_from(&None, &strings(&["x", "w"]), Some(1), &file, &root, &k).unwrap();
    assert_eq!(
        imports,
        vec![Import::Module("pkg.sub.x".to_string()), Import::Package("pkg.sub.w".to_string())]
    );
}

#[test]
fn relative_level_two_starts_in_parent_directory() {
    let root = "/r".to_string();
    let file = "/r/pkg/sub/mod.py".to_string();
    let k = kinds(&["/r/pkg", "/r/pkg/sub"], &[]);
    let imports =
        Import::from_import_from(&None, &strings(&["y"]), Some(2), &file, &root, &k).unwrap();
    assert_eq!(imports, vec![Import::Module("pkg.y".to_string())]);
    let imports =
        Import::from_import_from(&Some("sub".to_string()), &strings(&["z"]), Some(2), &file, &root, &k)
            .unwrap();
    assert_eq!(imports, vec![Import::Module("pkg.sub.z".to_string())]);
}

#[test]
fn relative_import_above_filesystem_root_fails() {
    let root = "/r".to_string();
    let file = "/r/a.py".to_string();
    let r = Import::from_import_from(&None, &strings(&["x"]), Some(3), &file, &root, &kinds(&[], &[]));
    assert_eq!(r.unwrap_err(), ResolveError::InvalidRelativeImport);
    let r = Import::from_import_from(&None, &strings(&["x"]), Some(2), &file, &root, &kinds(&[], &[]));
    assert_eq!(r.unwrap(), vec![Import::Module(".x".to_string())]);
}

#[test]
fn from_source_file_names_one_module() {
    let root = "/r".to_string();
    let file = "/r/main.py".to_string();
    let k = kinds(&["/r/pkg"], &["/r/pkg/sub.py"]);
    let imports = Import::from_import_from(
        &Some("pkg.sub".to_string()),
        &strings(&["a", "b", "c"]),
        Some(0),
        &file,
        &root,
        &k,
    )
    .unwrap();
    assert_eq!(imports, vec![Import::Module("pkg.sub".to_string())]);
    let imports =
        Import::from_import_from(&Some("pkg".to_string()), &strings(&["sub"]), None, &file, &root, &k)
            .unwrap();
    assert_eq!(imports, vec![Import::Module("pkg.sub".to_string())]);
}

#[test]
fn resolve_statement_dispatches_on_kind() {
    let root = "/r".to_string();
    let file = "/r/main.py".to_string();
    let k = kinds(&["/r/pkg"], &[]);
    let st = RawImport::Import { names: strings(&["pkg", "os.path"]) };
    assert_eq!(
        resolve_statement(&st, &file, &root, &k).unwrap(),
        vec![Import::Package("pkg".to_string()), Import::Module("os.path".to_string())]
    );
    let st = RawImport::ImportFrom { module: None, names: strings(&["q"]), level: Some(1) };
    assert_eq!(
        resolve_statement(&st, &file, &root, &k).unwrap(),
        vec![Import::Module("q".to_string())]
    );
}

#[test]
fn packages_enter_the_set_by_initializer() {
    let keys = resolve_imports(vec![
        Import::Package("pkg".to_string()),
        Import::Module("pkg.mod".to_string()),
    ]);
    assert_eq!(keys, strings(&["pkg.__init__", "pkg.mod"]));
}

#[test]
fn from_package_with_sibling_module_joins_names() {
    let root = "/r".to_string();
    let file = "/r/main.py".to_string();
    let k = kinds(&["/r/pkg", "/r/pkg/x"], &["/r/pkg.py", "/r/pkg/a.py"]);
    let imports =
        Import::from_import_from(&Some("pkg".to_string()), &strings(&["a", "x"]), Some(0), &file, &root, &k)
            .unwrap();
    assert_eq!(
        imports,
        vec![Import::Module("pkg.a".to_string()), Import::Package("pkg.x".to_string())]
    );
}

#[test]
fn project_root_at_filesystem_root() {
    let root = "/".to_string();
    let file = "/main.py".to_string();
    let k = kinds_at("/", &["/", "/pkg"], &["/pkg/sub.py"]);
    let imports = Import::from_import_from(
        &Some("pkg.sub".to_string()),
        &strings(&["x", "y"]),
        Some(0),
        &file,
        &root,
        &k,
    )
    .unwrap();
    assert_eq!(imports, vec![Import::Module("pkg.sub".to_string())]);
    let imports = Import::from_import(&strings(&["pkg"]), &root, &k);
    assert_eq!(imports, vec![Import::Package("pkg".to_string())]);
}

#[test]
fn path_kinds_lookups() {
    let k = kinds(&["/r/b", "/r/a", "/r/b"], &["/r/z.py", "/r/a.py"]);
    assert!(k.is_dir(&"/r/a".to_string()));
    assert!(k.is_dir(&"/r/b".to_string()));
    assert!(!k.is_dir(&"/r/c".to_string()));
    assert!(k.is_file(&"/r/z.py".to_string()));
    assert!(!k.is_file(&"/r/a".to_string()));
}

#[test]
fn path_kinds_need_parent_directories() {
    let root = "/r".to_string();
    assert!(PathKinds::new(&root, &strings(&["/r/a/b"]), &vec![]).is_none());
    assert!(PathKinds::new(&root, &strings(&["/r/a/b", "/r/a"]), &vec![]).is_some());
    assert!(PathKinds::new(&root, &strings(&["/r", "/elsewhere/x"]), &vec![]).is_some());
}

#[test]
fn names_under_missing_module_are_modules() {
    let root = "/r".to_string();
    let file = "/r/main.py".to_string();
    let k = kinds(&["/r/pkg"], &[]);
    let imports =
        Import::from_import_from(&Some("pkg.gone".to_string()), &strings(&["a", "b"]), None, &file, &root, &k)
            .unwrap();
    assert_eq!(
        imports,
        vec![Import::Module("pkg.gone.a".to_string()), Import::Module("pkg.gone.b".to_string())]
    );
}
