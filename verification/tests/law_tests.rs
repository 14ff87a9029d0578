use codeatlas::find::{find_in_repos, FindQuery, FindScope, LoadedRepo};
use codeatlas::ids::{get_id, EdgeId, FileId, IdGenerator, RepoId, SymbolId};
use codeatlas::naming::{canonical_module_path, make_qualified_name, module_path_for_file, resolve_import_path};
use codeatlas::paths::{compare_paths, file_name_of, Order};
use codeatlas::repo::{
    relativize_files, Edge, EdgeKind, FileNode, FunctionInfo, LanguageKind, NodeRef, Repo, Span, SymbolInfo,
    SymbolNode,
};
use codeatlas::syntax::RustParser;

fn chars(s: &str) -> Vec<char> {
    s.chars().collect()
}

#[test]
fn canonical_module_path_is_idempotent() {
    for path in ["", "crate", "repo", "crate::repo", "a::b", "crates::x"] {
        let once = canonical_module_path(path);
        assert!(once == "crate" || once.starts_with("crate::"), "{once}");
        assert_eq!(canonical_module_path(&once), once);
    }
    assert_eq!(canonical_module_path("crates::x"), "crate::crates::x");
}

#[test]
fn qualified_name_ignores_whether_module_was_anchored() {
    assert_eq!(make_qualified_name("repo", "demo"), "crate::repo::demo");
    assert_eq!(make_qualified_name("crate::repo", "demo"), make_qualified_name("repo", "demo"));
    assert_eq!(make_qualified_name("", "demo"), "crate::demo");
}

#[test]
fn module_path_for_file_is_anchored() {
    for path in ["src/lib.rs", "src/nested/mod.rs", "tests/main.rs", "a/b/c.rs", "x.rs"] {
        let module = module_path_for_file(path);
        assert!(module == "crate" || module.starts_with("crate::"), "{module}");
        assert_eq!(canonical_module_path(&module), module);
    }
    assert_eq!(module_path_for_file("src/nested/mod.rs"), "crate::nested");
}

#[test]
fn resolved_imports_stay_under_the_crate_root() {
    assert_eq!(resolve_import_path("crate::a", "super::super::super::x"), "crate::x");
    assert_eq!(resolve_import_path("a::b", "super::y"), "crate::a::y");
    assert_eq!(resolve_import_path("a", "self::z"), "crate::a::z");
    assert_eq!(resolve_import_path("a", "serde::Serialize"), "crate::serde::Serialize");
    assert_eq!(resolve_import_path("a", "std::fs"), "std::fs");
    assert_eq!(resolve_import_path("a", "alloc::vec::Vec"), "alloc::vec::Vec");
    assert_eq!(resolve_import_path("a", "crate::b::C"), "crate::b::C");
    assert_eq!(resolve_import_path("", "super::"), "crate");
}

#[test]
fn ids_from_a_fresh_counter_are_distinct_and_positive() {
    let mut ids = IdGenerator::new();
    let a: RepoId = get_id(&mut ids);
    let b: RepoId = get_id(&mut ids);
    let c: RepoId = get_id(&mut ids);
    assert_eq!((a, b, c), (RepoId(1), RepoId(2), RepoId(3)));
}

#[test]
fn many_ids_from_a_fresh_counter_are_distinct_and_positive() {
    let mut ids = IdGenerator::new();
    let mut seen = std::collections::HashSet::new();
    for _ in 0..10_000 {
        let id: SymbolId = get_id(&mut ids);
        assert!(id.0 > 0);
        assert!(seen.insert(id.0));
    }
    assert_eq!(seen.len(), 10_000);
}

#[test]
fn directory_entry_files_name_the_directory_module() {
    for stem in ["mod", "lib", "main"] {
        for dir in ["a", "src/a", "src", "x/y/z"] {
            let entry = module_path_for_file(&format!("{dir}/{stem}.rs"));
            assert_eq!(entry, module_path_for_file(&format!("{dir}.rs")), "{dir} {stem}");
        }
    }
    assert_eq!(module_path_for_file("src/a/mod.rs"), "crate::a");
    assert_eq!(module_path_for_file("src/lib.rs"), "crate");
}

#[test]
fn path_order_is_a_total_preorder_on_samples() {
    let samples = ["/a", "/a/b", "/a//b", "a", "./a", "../a", "/b", "/a/b/", "/a/c"];
    for x in samples {
        for y in samples {
            let xy = compare_paths(&chars(x), &chars(y));
            let yx = compare_paths(&chars(y), &chars(x));
            let flipped = match xy {
                Order::Less => Order::Greater,
                Order::Equal => Order::Equal,
                Order::Greater => Order::Less,
            };
            assert_eq!(yx, flipped, "{x} {y}");
        }
    }
    assert_eq!(compare_paths(&chars("/a//b"), &chars("/a/b/")), Order::Equal);
    assert_eq!(compare_paths(&chars("/a/b"), &chars("/a/c")), Order::Less);
}

#[test]
fn relativized_files_resolve_back_under_the_root() {
    let mut ids = IdGenerator::new();
    let stored = relativize_files("/work/r", false, vec![String::from("/work/r/src/a.rs")]);
    assert_eq!(stored, vec![String::from("src/a.rs")]);
    let repo = Repo::new(String::from("r"), String::from("/work/r"), vec![], &mut ids);
    assert_eq!(repo.resolve_file_path(&stored[0], false), "/work/r/src/a.rs");

    let single = relativize_files("/work/r/one.rs", true, vec![String::from("/work/r/one.rs")]);
    assert_eq!(single, vec![String::from("one.rs")]);
    let repo = Repo::new(String::from("r"), String::from("/work/r/one.rs"), vec![], &mut ids);
    assert_eq!(repo.resolve_file_path(&single[0], true), "/work/r/one.rs");
}

#[test]
fn extracted_symbols_are_located_in_their_files_after_build_edges() {
    let files = vec![
        FileNode { id: FileId(100), path: String::from("src/lib.rs"), language: LanguageKind::Rust },
        FileNode { id: FileId(200), path: String::from("src/util/mod.rs"), language: LanguageKind::Rust },
    ];
    let sources = vec![
        Some(String::from("use std::fs;\nfn top() {}\n")),
        Some(String::from("pub struct Helper(u8);\nmod inner { fn deep() {} }\n")),
    ];
    let mut ids = IdGenerator::new();
    let mut repo = Repo::new(String::from("r"), String::from("/work/r"), files, &mut ids);
    let mut parser = RustParser::new().expect("parser");
    let (symbols, unparsed) = repo.extract_symbols(&mut parser, &sources, &mut ids);
    assert!(unparsed.is_empty());
    repo.symbols = symbols;
    repo.edges = repo.build_edges(&mut ids);

    let names: Vec<&str> = repo.symbols.iter().map(|s| s.qualified_name.as_str()).collect();
    assert_eq!(names, vec!["crate::std::fs", "crate::top", "crate::util::inner::deep", "crate::util::Helper"]);
    for (k, symbol) in repo.symbols.iter().enumerate() {
        for other in &repo.symbols[k + 1..] {
            assert_ne!(symbol.id, other.id);
        }
        let expected = if symbol.file == FileId(100) { "/work/r/src/lib.rs" } else { "/work/r/src/util/mod.rs" };
        assert_eq!(repo.resolve_symbol_file_path(symbol.id, false).as_deref(), Some(expected));
    }

    let repos = vec![LoadedRepo { repo, root_is_file: false }];
    let query = FindQuery { symbol: String::from("crate::util::Helper"), scope: FindScope::All, list_mode: true };
    let found = find_in_repos(&query, &repos, Some("/work/r/src/util"));
    assert_eq!(found.len(), 1);
    assert_eq!(found[0].path, "/work/r/src/util/mod.rs");
    assert_eq!(found[0].file_name.as_deref(), Some("mod.rs"));
    assert_eq!(found[0].kind, "struct");
}

fn function_symbol(id: u64, file: u64, qualified_name: &str, line: usize, arg: &str) -> SymbolNode {
    SymbolNode {
        id: SymbolId(id),
        file: FileId(file),
        name: String::from("run"),
        qualified_name: String::from(qualified_name),
        module: Some(String::from("crate")),
        info: SymbolInfo::Function(FunctionInfo { args: Some(vec![String::from(arg)]) }),
        span: Span { start_line: line, start_col: 1, end_line: line, end_col: 10 },
    }
}

#[test]
fn find_report_is_sorted_and_keeps_ties_in_order() {
    let files = vec![
        FileNode { id: FileId(1), path: String::from("src/b.rs"), language: LanguageKind::Rust },
        FileNode { id: FileId(2), path: String::from("src/a.rs"), language: LanguageKind::Rust },
    ];
    let symbols = vec![
        function_symbol(10, 1, "crate::b::run", 5, "first"),
        function_symbol(11, 2, "crate::a::run", 9, "x"),
        function_symbol(12, 1, "crate::b::run", 5, "second"),
        function_symbol(13, 2, "crate::a::run", 2, "y"),
    ];
    let mut edges = vec![
        Edge { id: EdgeId(20), kind: EdgeKind::Contain, from: NodeRef::Repo(RepoId(7)), to: NodeRef::File(FileId(1)) },
        Edge { id: EdgeId(21), kind: EdgeKind::Contain, from: NodeRef::Repo(RepoId(7)), to: NodeRef::File(FileId(2)) },
    ];
    for (k, symbol) in symbols.iter().enumerate() {
        edges.push(Edge {
            id: EdgeId(30 + k as u64),
            kind: EdgeKind::Contain,
            from: NodeRef::File(symbol.file),
            to: NodeRef::Symbol(symbol.id),
        });
    }
    let repo = Repo { id: RepoId(7), name: String::from("r"), root_path: String::from("/w"), files, symbols, edges };
    let repos = vec![LoadedRepo { repo, root_is_file: false }];
    let query = FindQuery { symbol: String::from("run"), scope: FindScope::All, list_mode: false };

    let found = find_in_repos(&query, &repos, None);
    let order: Vec<(String, usize)> = found.iter().map(|r| (r.path.clone(), r.span.start_line)).collect();
    assert_eq!(
        order,
        vec![
            (String::from("/w/src/a.rs"), 2),
            (String::from("/w/src/a.rs"), 9),
            (String::from("/w/src/b.rs"), 5),
            (String::from("/w/src/b.rs"), 5),
        ]
    );
    let args: Vec<String> = found
        .iter()
        .map(|r| match &r.info {
            SymbolInfo::Function(f) => f.args.as_ref().expect("args")[0].clone(),
            _ => panic!("expected function"),
        })
        .collect();
    assert_eq!(args, vec!["y", "x", "first", "second"]);
}

#[test]
fn file_name_is_the_last_named_component() {
    let name = |p: &str| file_name_of(&chars(p)).map(|v| v.into_iter().collect::<String>());
    assert_eq!(name("/work/r/src/lib.rs"), Some(String::from("lib.rs")));
    assert_eq!(name("src/util/"), Some(String::from("util")));
    assert_eq!(name("/"), None);
    assert_eq!(name("a/.."), None);
    assert_eq!(name("."), None);
    assert_eq!(name(""), None);
}
