use cargo_files_core::harness::{render_module, Dir, DirTree, DirTreeEntry, File, Module};
use cargo_files_core::path::FilePath;
use cargo_files_core::vfs::Vfs;
use cargo_files_core::{get_target_files, Error, Target};

fn module(name: &str, path: Option<&str>, children: Option<Vec<Module>>) -> Module {
    Module {
        name: name.to_string(),
        path: path.map(String::from),
        children,
    }
}

fn file(name: &str, modules: Vec<Module>) -> File {
    File {
        name: name.to_string(),
        modules,
    }
}

fn build_vfs(tree: &DirTree) -> Vfs {
    let mut dirs: Vec<Dir> = Vec::new();
    tree.dirs(&mut dirs);
    let mut vfs = Vfs::new();
    for d in &dirs {
        for f in &d.files {
            let full = format!("{}/{}", d.path.join("/"), f.name);
            let content = f
                .modules
                .iter()
                .map(render_module)
                .collect::<Vec<_>>()
                .join("\n");
            vfs.add_file(&full, &content);
        }
    }
    vfs
}

fn lib_target(entry: &str) -> Target {
    Target {
        path: FilePath::from_str_path(entry),
        kind: "lib".to_string(),
        edition: "2021".to_string(),
    }
}

fn sorted_files(tree: &DirTree) -> String {
    let vfs = build_vfs(tree);
    let files =
        get_target_files(&lib_target("src/lib.rs"), &vfs).expect("failed to get target files");
    let mut paths: Vec<String> = files.paths.iter().map(|p| p.parts.join("/")).collect();
    paths.sort();
    paths.join("\n")
}

fn src_tree(entries: Vec<DirTreeEntry>) -> DirTree {
    DirTree(vec![("src".to_string(), entries)])
}

fn subdir(name: &str, entries: Vec<DirTreeEntry>) -> DirTreeEntry {
    DirTreeEntry::Directory(DirTree(vec![(name.to_string(), entries)]))
}

#[test]
fn basic_detection() {
    let tree = src_tree(vec![
        DirTreeEntry::File(file(
            "lib.rs",
            vec![module("test", None, None), module("whatever", None, None)],
        )),
        DirTreeEntry::File(file("whatever.rs", vec![])),
        subdir(
            "test",
            vec![
                DirTreeEntry::File(file("mod.rs", vec![module("cat", None, None)])),
                DirTreeEntry::File(file("cat.rs", vec![])),
                DirTreeEntry::File(file("not_in_the_crate.rs", vec![])),
            ],
        ),
    ]);
    assert_eq!(
        sorted_files(&tree),
        "src/lib.rs\nsrc/test/cat.rs\nsrc/test/mod.rs\nsrc/whatever.rs"
    );
}

#[test]
fn new_module_layout() {
    let tree = src_tree(vec![
        DirTreeEntry::File(file("lib.rs", vec![module("scooby", None, None)])),
        DirTreeEntry::File(file(
            "scooby.rs",
            vec![module("apple", None, None), module("banana", None, None)],
        )),
        subdir(
            "scooby",
            vec![
                DirTreeEntry::File(file("apple.rs", vec![])),
                DirTreeEntry::File(file("banana.rs", vec![])),
            ],
        ),
    ]);
    assert_eq!(
        sorted_files(&tree),
        "src/lib.rs\nsrc/scooby.rs\nsrc/scooby/apple.rs\nsrc/scooby/banana.rs"
    );
}

#[test]
fn path_attribute() {
    let tree = src_tree(vec![
        DirTreeEntry::File(file(
            "lib.rs",
            vec![
                module("scooby", Some("apple.rs"), None),
                module("banana", None, None),
            ],
        )),
        DirTreeEntry::File(file("apple.rs", vec![])),
        subdir("banana", vec![DirTreeEntry::File(file("mod.rs", vec![]))]),
    ]);
    assert_eq!(
        sorted_files(&tree),
        "src/apple.rs\nsrc/banana/mod.rs\nsrc/lib.rs"
    );
}

#[test]
fn nested_module_basic() {
    let tree = src_tree(vec![
        DirTreeEntry::File(file(
            "lib.rs",
            vec![module(
                "inline",
                None,
                Some(vec![module("apple", None, None)]),
            )],
        )),
        subdir("inline", vec![DirTreeEntry::File(file("apple.rs", vec![]))]),
    ]);
    assert_eq!(sorted_files(&tree), "src/inline/apple.rs\nsrc/lib.rs");
}

#[test]
fn nested_module_mod_rs() {
    let tree = src_tree(vec![
        DirTreeEntry::File(file(
            "lib.rs",
            vec![
                module(
                    "inline",
                    None,
                    Some(vec![
                        module("inner", Some("other.rs"), None),
                        module("cat", None, None),
                    ]),
                ),
                module("apple", None, None),
            ],
        )),
        DirTreeEntry::File(file("apple.rs", vec![])),
        subdir(
            "inline",
            vec![
                DirTreeEntry::File(file("other.rs", vec![])),
                DirTreeEntry::File(file("cat.rs", vec![])),
            ],
        ),
    ]);
    assert_eq!(
        sorted_files(&tree),
        "src/apple.rs\nsrc/inline/cat.rs\nsrc/inline/other.rs\nsrc/lib.rs"
    );
}

#[test]
fn nested_module_non_mod_rs() {
    // path attributes in module blocks are resolved differently
    // depending on the kind of source file they stand in; compare the
    // previous test.
    let tree = src_tree(vec![
        DirTreeEntry::File(file("lib.rs", vec![module("apple", None, None)])),
        DirTreeEntry::File(file(
            "apple.rs",
            vec![module(
                "inline",
                None,
                Some(vec![
                    module("inner", Some("other.rs"), None),
                    module("tat", None, None),
                ]),
            )],
        )),
        subdir(
            "apple",
            vec![subdir(
                "inline",
                vec![
                    DirTreeEntry::File(file("other.rs", vec![])),
                    DirTreeEntry::File(file("tat.rs", vec![])),
                ],
            )],
        ),
    ]);
    assert_eq!(
        sorted_files(&tree),
        "src/apple.rs\nsrc/apple/inline/other.rs\nsrc/apple/inline/tat.rs\nsrc/lib.rs"
    );
}

#[test]
fn module_in_subdir() {
    let tree = src_tree(vec![
        DirTreeEntry::File(file(
            "lib.rs",
            vec![
                module("new", None, None),
                module("subdir2", None, None),
                module(
                    "subdir",
                    None,
                    Some(vec![module("subdir_module", None, None)]),
                ),
            ],
        )),
        DirTreeEntry::File(file("new.rs", vec![module("new_sub", None, None)])),
        subdir("new", vec![DirTreeEntry::File(file("new_sub.rs", vec![]))]),
        subdir(
            "subdir",
            vec![DirTreeEntry::File(file("subdir_module.rs", vec![]))],
        ),
        subdir(
            "subdir2",
            vec![
                DirTreeEntry::File(file("mod.rs", vec![module("subdir_module", None, None)])),
                DirTreeEntry::File(file("subdir_module.rs", vec![])),
            ],
        ),
    ]);
    assert_eq!(
        sorted_files(&tree),
        "src/lib.rs\nsrc/new.rs\nsrc/new/new_sub.rs\nsrc/subdir/subdir_module.rs\nsrc/subdir2/mod.rs\nsrc/subdir2/subdir_module.rs"
    );
}

#[test]
fn module_in_top_level_file() {
    let tree = src_tree(vec![
        DirTreeEntry::File(file("lib.rs", vec![module("parse", None, None)])),
        DirTreeEntry::File(file(
            "parse.rs",
            vec![module("discouraged", Some("discouraged.rs"), None)],
        )),
        DirTreeEntry::File(file("discouraged.rs", vec![])),
    ]);
    assert_eq!(
        sorted_files(&tree),
        "src/discouraged.rs\nsrc/lib.rs\nsrc/parse.rs"
    );
}

#[test]
fn difference_between_mod_and_not_mod_1() {
    let tree = src_tree(vec![
        DirTreeEntry::File(file("lib.rs", vec![module("a", None, None)])),
        DirTreeEntry::File(file(
            "a.rs",
            vec![module("b", None, None), module("c", None, None)],
        )),
        subdir(
            "a",
            vec![
                DirTreeEntry::File(file("b.rs", vec![])),
                subdir("c", vec![DirTreeEntry::File(file("mod.rs", vec![]))]),
            ],
        ),
    ]);
    assert_eq!(
        sorted_files(&tree),
        "src/a.rs\nsrc/a/b.rs\nsrc/a/c/mod.rs\nsrc/lib.rs"
    );
}

#[test]
fn difference_between_mod_and_not_mod_2() {
    let tree = src_tree(vec![
        DirTreeEntry::File(file("lib.rs", vec![module("a", None, None)])),
        subdir(
            "a",
            vec![
                DirTreeEntry::File(file(
                    "mod.rs",
                    vec![module("b", None, None), module("c", None, None)],
                )),
                DirTreeEntry::File(file("b.rs", vec![])),
                subdir("c", vec![DirTreeEntry::File(file("mod.rs", vec![]))]),
            ],
        ),
    ]);
    assert_eq!(
        sorted_files(&tree),
        "src/a/b.rs\nsrc/a/c/mod.rs\nsrc/a/mod.rs\nsrc/lib.rs"
    );
}

#[test]
fn nested_module_paths() {
    let tree = src_tree(vec![
        DirTreeEntry::File(file("lib.rs", vec![module("a", None, None)])),
        DirTreeEntry::File(file(
            "a.rs",
            vec![module(
                "b",
                Some("canned"),
                Some(vec![module("data", Some("soup.rs"), None)]),
            )],
        )),
        subdir("canned", vec![DirTreeEntry::File(file("soup.rs", vec![]))]),
    ]);
    assert_eq!(
        sorted_files(&tree),
        "src/a.rs\nsrc/canned/soup.rs\nsrc/lib.rs"
    );
}

#[test]
fn nested_module_paths_in_root() {
    let tree = src_tree(vec![
        DirTreeEntry::File(file(
            "lib.rs",
            vec![module(
                "a",
                Some("canned"),
                Some(vec![module("data", Some("soup.rs"), None)]),
            )],
        )),
        subdir("canned", vec![DirTreeEntry::File(file("soup.rs", vec![]))]),
    ]);
    assert_eq!(sorted_files(&tree), "src/canned/soup.rs\nsrc/lib.rs");
}

#[test]
fn flat_and_marker_children() {
    // Two file-backed declarations without overrides: one backed by a
    // flat file, the other by a directory-marker file.
    let tree = src_tree(vec![
        DirTreeEntry::File(file(
            "lib.rs",
            vec![module("a", None, None), module("b", None, None)],
        )),
        DirTreeEntry::File(file("a.rs", vec![])),
        subdir("b", vec![DirTreeEntry::File(file("mod.rs", vec![]))]),
    ]);
    assert_eq!(sorted_files(&tree), "src/a.rs\nsrc/b/mod.rs\nsrc/lib.rs");
}

#[test]
fn entry_always_in_result() {
    let tree = src_tree(vec![DirTreeEntry::File(file("lib.rs", vec![]))]);
    let vfs = build_vfs(&tree);
    let files = get_target_files(&lib_target("src/lib.rs"), &vfs).unwrap();
    assert_eq!(files.paths.len(), 1);
    assert!(files.paths[0].eq_path(&FilePath::from_str_path("src/lib.rs")));
}

#[test]
fn build_twice_is_identical() {
    let tree = src_tree(vec![
        DirTreeEntry::File(file("lib.rs", vec![module("a", None, None)])),
        DirTreeEntry::File(file("a.rs", vec![])),
    ]);
    let vfs = build_vfs(&tree);
    let first = get_target_files(&lib_target("src/lib.rs"), &vfs).unwrap();
    let second = get_target_files(&lib_target("src/lib.rs"), &vfs).unwrap();
    let mut a: Vec<String> = first.paths.iter().map(|p| p.parts.join("/")).collect();
    let mut b: Vec<String> = second.paths.iter().map(|p| p.parts.join("/")).collect();
    a.sort();
    b.sort();
    assert_eq!(a, b);
}

#[test]
fn missing_module_is_module_not_found() {
    let tree = src_tree(vec![DirTreeEntry::File(file(
        "lib.rs",
        vec![module("missing", None, None)],
    ))]);
    let vfs = build_vfs(&tree);
    let err = get_target_files(&lib_target("src/lib.rs"), &vfs).unwrap_err();
    assert!(matches!(err, Error::ModuleNotFound));
}

#[test]
fn duplicate_resolutions_appear_once() {
    // Two declarations resolve to the same canonical file: one
    // through a plain override, one through an override with a `..`
    // segment to normalize away.
    let tree = src_tree(vec![
        DirTreeEntry::File(file(
            "lib.rs",
            vec![
                module("first", Some("shared.rs"), None),
                module("second", Some("extra/../shared.rs"), None),
            ],
        )),
        DirTreeEntry::File(file("shared.rs", vec![])),
        subdir("extra", vec![DirTreeEntry::File(file("unused.rs", vec![]))]),
    ]);
    assert_eq!(sorted_files(&tree), "src/lib.rs\nsrc/shared.rs");
}

#[test]
fn override_excludes_default_candidates() {
    // With an override, the flat and directory-marker candidates are
    // never consulted, even though both exist.
    let tree = src_tree(vec![
        DirTreeEntry::File(file(
            "lib.rs",
            vec![module("a", Some("custom.rs"), None)],
        )),
        DirTreeEntry::File(file("custom.rs", vec![])),
        DirTreeEntry::File(file("a.rs", vec![])),
        subdir("a", vec![DirTreeEntry::File(file("mod.rs", vec![]))]),
    ]);
    assert_eq!(sorted_files(&tree), "src/custom.rs\nsrc/lib.rs");
}

#[test]
fn inline_without_file_children_adds_nothing() {
    let tree = src_tree(vec![DirTreeEntry::File(file(
        "lib.rs",
        vec![module("x", None, Some(vec![]))],
    ))]);
    assert_eq!(sorted_files(&tree), "src/lib.rs");
}

#[test]
fn nested_chain_with_middle_override_walks_into_directory() {
    // Chain a.b.c: a plain, b overridden to the directory `dir`, c
    // innermost with no override; the flat candidate is looked up
    // inside the walked base.
    let tree = src_tree(vec![
        DirTreeEntry::File(file(
            "lib.rs",
            vec![module(
                "a",
                None,
                Some(vec![module(
                    "b",
                    Some("dir"),
                    Some(vec![module("c", None, None)]),
                )]),
            )],
        )),
        subdir(
            "a",
            vec![subdir("dir", vec![DirTreeEntry::File(file("c.rs", vec![]))])],
        ),
    ]);
    assert_eq!(sorted_files(&tree), "src/a/dir/c.rs\nsrc/lib.rs");
}

#[test]
fn unreadable_resolution_is_file_error() {
    // An override naming a directory resolves (the path exists), but
    // reading it as a file fails, and the error carries its path.
    let tree = src_tree(vec![
        DirTreeEntry::File(file(
            "lib.rs",
            vec![module("a", Some("canned"), None)],
        )),
        subdir("canned", vec![DirTreeEntry::File(file("soup.rs", vec![]))]),
    ]);
    let vfs = build_vfs(&tree);
    let err = get_target_files(&lib_target("src/lib.rs"), &vfs).unwrap_err();
    match err {
        Error::FileError(p) => assert_eq!(p.parts.join("/"), "src/canned"),
        other => panic!("expected FileError, got {:?}", other),
    }
}

#[test]
fn unparsable_file_is_parse_error() {
    let mut vfs = Vfs::new();
    vfs.add_file("src/lib.rs", "mod broken {");
    let err = get_target_files(&lib_target("src/lib.rs"), &vfs).unwrap_err();
    assert!(matches!(err, Error::ParseError));
}

#[test]
fn missing_entry_is_file_error() {
    let vfs = Vfs::new();
    let err = get_target_files(&lib_target("src/lib.rs"), &vfs).unwrap_err();
    match err {
        Error::FileError(p) => assert_eq!(p.parts.join("/"), "src/lib.rs"),
        other => panic!("expected FileError, got {:?}", other),
    }
}
