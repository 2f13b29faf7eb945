use cargo_files_core::harness::{render_module, Dir, DirTree, DirTreeEntry, File, Module};
use cargo_files_core::parser::{Module as ModuleDecl, PathComponent};
use cargo_files_core::path::FilePath;
use cargo_files_core::resolve::resolve_base_resolution_path;
use cargo_files_core::vfs::Vfs;
use cargo_files_core::{validate_manifest_path, validate_targets, Error, Target};

fn path(s: &str) -> FilePath {
    FilePath::from_str_path(s)
}

fn component(name: &str, over: Option<&str>) -> PathComponent {
    PathComponent {
        name: name.to_string(),
        path: over.map(String::from),
    }
}

#[test]
fn split_drops_empty_segments() {
    assert_eq!(path("src//lib.rs/").parts, vec!["src", "lib.rs"]);
    assert_eq!(path("").parts, Vec::<String>::new());
}

#[test]
fn normalize_resolves_dots() {
    assert_eq!(path("src/./a/../b.rs").normalize().parts, vec!["src", "b.rs"]);
    assert_eq!(path("../a.rs").normalize().parts, vec!["a.rs"]);
}

#[test]
fn file_stem_follows_last_dot() {
    assert_eq!(path("src/a.rs").file_stem().unwrap(), "a");
    assert_eq!(path("src/a.b.rs").file_stem().unwrap(), "a.b");
    assert_eq!(path("src/.rs").file_stem().unwrap(), ".rs");
    assert_eq!(path("src/name").file_stem().unwrap(), "name");
    assert!(matches!(path("").file_stem(), Err(Error::NoStem)));
    assert!(matches!(path("a/..").file_stem(), Err(Error::NoStem)));
}

#[test]
fn parent_of_empty_path_fails() {
    assert!(matches!(path("").parent(), Err(Error::NoParent)));
    assert_eq!(path("lib.rs").parent().unwrap().parts, Vec::<String>::new());
}

#[test]
fn base_resolution_for_entry_file_is_its_directory() {
    let base = resolve_base_resolution_path(&path("src/lib.rs"), &path("src/lib.rs")).unwrap();
    assert_eq!(base.parts, vec!["src"]);
}

#[test]
fn base_resolution_for_marker_file_is_its_directory() {
    let base = resolve_base_resolution_path(&path("src/lib.rs"), &path("src/a/mod.rs")).unwrap();
    assert_eq!(base.parts, vec!["src", "a"]);
}

#[test]
fn base_resolution_for_plain_file_steps_into_stem() {
    let base = resolve_base_resolution_path(&path("src/lib.rs"), &path("src/a.rs")).unwrap();
    assert_eq!(base.parts, vec!["src", "a"]);
}

#[test]
fn resolve_without_parent_fails() {
    let decl = ModuleDecl {
        parts: vec![component("a", None)],
    };
    let vfs = Vfs::new();
    let err = decl
        .resolve(&path("src/lib.rs"), &path(""), &vfs)
        .unwrap_err();
    assert!(matches!(err, Error::NoParent));
}

#[test]
fn resolve_without_stem_fails() {
    let decl = ModuleDecl {
        parts: vec![component("a", None)],
    };
    let vfs = Vfs::new();
    let err = decl
        .resolve(&path("src/lib.rs"), &path("src/.."), &vfs)
        .unwrap_err();
    assert!(matches!(err, Error::NoStem));
}

#[test]
fn resolve_prefers_flat_over_marker() {
    let mut vfs = Vfs::new();
    vfs.add_file("src/a.rs", "");
    vfs.add_file("src/a/mod.rs", "");
    let decl = ModuleDecl {
        parts: vec![component("a", None)],
    };
    let found = decl
        .resolve(&path("src/lib.rs"), &path("src/lib.rs"), &vfs)
        .unwrap();
    assert_eq!(found.parts, vec!["src", "a.rs"]);
}

#[test]
fn resolve_falls_back_to_marker() {
    let mut vfs = Vfs::new();
    vfs.add_file("src/a/mod.rs", "");
    let decl = ModuleDecl {
        parts: vec![component("a", None)],
    };
    let found = decl
        .resolve(&path("src/lib.rs"), &path("src/lib.rs"), &vfs)
        .unwrap();
    assert_eq!(found.parts, vec!["src", "a", "mod.rs"]);
}

#[test]
fn outermost_override_anchored_at_source_directory() {
    // A chain of depth two whose outermost component carries the
    // override: resolved against the containing file's own directory,
    // not against the nested base `src/deep/...`.
    let mut vfs = Vfs::new();
    vfs.add_file("src/over/leaf.rs", "");
    let decl = ModuleDecl {
        parts: vec![component("outer", Some("over")), component("leaf", None)],
    };
    let found = decl
        .resolve(&path("src/lib.rs"), &path("src/deep.rs"), &vfs)
        .unwrap();
    assert_eq!(found.parts, vec!["src", "over", "leaf.rs"]);
}

#[test]
fn validate_manifest_path_accepts_cargo_toml() {
    assert!(validate_manifest_path(&path("work/Cargo.toml")).is_ok());
    assert!(matches!(
        validate_manifest_path(&path("work/Cargo.lock")),
        Err(Error::ManifestNotCargoToml)
    ));
    assert!(matches!(
        validate_manifest_path(&path("")),
        Err(Error::ManifestNotCargoToml)
    ));
}

#[test]
fn validate_targets_requires_at_least_one() {
    assert!(matches!(
        validate_targets(Vec::new()),
        Err(Error::NoTargets)
    ));
    let t = Target {
        path: path("src/lib.rs"),
        kind: "lib".to_string(),
        edition: "2021".to_string(),
    };
    let kept = validate_targets(vec![t]).unwrap();
    assert_eq!(kept.len(), 1);
    assert!(kept[0].path.eq_path(&path("src/lib.rs")));
}

#[test]
fn same_target_compares_entry_paths_only() {
    let a = Target {
        path: path("src/lib.rs"),
        kind: "lib".to_string(),
        edition: "2021".to_string(),
    };
    let b = Target {
        path: path("src/lib.rs"),
        kind: "bin".to_string(),
        edition: "2018".to_string(),
    };
    let c = Target {
        path: path("src/main.rs"),
        kind: "lib".to_string(),
        edition: "2021".to_string(),
    };
    assert!(a.same_target(&b));
    assert!(!a.same_target(&c));
}

#[test]
fn render_module_with_override_and_children() {
    let m = Module {
        name: "outer".to_string(),
        path: Some("dir".to_string()),
        children: Some(vec![Module {
            name: "inner".to_string(),
            path: None,
            children: None,
        }]),
    };
    assert_eq!(
        render_module(&m),
        "#[path = \"dir\"]\nmod outer {\nmod inner;\n}"
    );
}

#[test]
fn render_module_file_backed() {
    let m = Module {
        name: "plain".to_string(),
        path: None,
        children: None,
    };
    assert_eq!(render_module(&m), "mod plain;");
}

#[test]
fn dirs_flattens_nested_directories() {
    let tree = DirTree(vec![(
        "src".to_string(),
        vec![
            DirTreeEntry::File(File {
                name: "lib.rs".to_string(),
                modules: vec![],
            }),
            DirTreeEntry::Directory(DirTree(vec![(
                "sub".to_string(),
                vec![DirTreeEntry::File(File {
                    name: "mod.rs".to_string(),
                    modules: vec![],
                })],
            )])),
        ],
    )]);
    let mut dirs: Vec<Dir> = Vec::new();
    tree.dirs(&mut dirs);
    assert_eq!(dirs.len(), 2);
    assert_eq!(dirs[0].path, vec!["src"]);
    assert_eq!(dirs[0].files.len(), 1);
    assert_eq!(dirs[0].files[0].name, "lib.rs");
    assert_eq!(dirs[1].path, vec!["src", "sub"]);
    assert_eq!(dirs[1].files[0].name, "mod.rs");
}
