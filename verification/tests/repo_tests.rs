use codeatlas::ids::{EdgeId, FileId, IdGenerator, RepoId, SymbolId};
use codeatlas::repo::{
    relativize_files, repo_add, repo_delete, repo_root, walk_dir, AddQuery, DeleteQuery, Edge,
    EdgeKind, FileNode, LanguageKind, NodeRef, Repo, Span, StructInfo, SymbolInfo, SymbolNode,
    WalkEntry,
};
use codeatlas::syntax::RustParser;

fn entry(path: &str, is_file: bool) -> WalkEntry {
    WalkEntry { path: String::from(path), is_file }
}

fn edge_id_symbol(file_id: FileId, symbol_id: SymbolId) -> SymbolNode {
    SymbolNode {
        id: symbol_id,
        file: file_id,
        name: String::from("EdgeId"),
        qualified_name: String::from("crate::repo::EdgeId"),
        module: Some(String::from("crate::repo")),
        info: SymbolInfo::Struct(StructInfo { members: vec![String::from("u64")] }),
        span: Span { start_line: 1, start_col: 1, end_line: 1, end_col: 19 },
    }
}

#[test]
fn test_repo_add_stores_directory_files_as_relative_paths() {
    let repo_path = "/work/codeatlas/unittest/repos/dir_case";
    let entries = vec![
        entry(repo_path, false),
        entry("/work/codeatlas/unittest/repos/dir_case/src", false),
        entry("/work/codeatlas/unittest/repos/dir_case/src/lib.rs", true),
        entry("/work/codeatlas/unittest/repos/dir_case/src/nested", false),
        entry("/work/codeatlas/unittest/repos/dir_case/src/nested/mod.rs", true),
        entry("/work/codeatlas/unittest/repos/dir_case/README.md", true),
    ];
    let walked = walk_dir(repo_path, false, &entries);
    let mut ids = IdGenerator::new();
    let repo = repo_add(
        AddQuery { repo: String::from("repo"), path: String::from(repo_path) },
        false,
        walked,
        &mut ids,
    );

    let mut files = repo.files.iter().map(|f| f.path.clone()).collect::<Vec<_>>();
    files.sort();
    let mut expected = vec![String::from("src/lib.rs"), String::from("src/nested/mod.rs")];
    expected.sort();

    assert_eq!(String::from(repo_path), repo.root_path);
    assert_eq!(expected, files);
}

#[test]
fn test_repo_add_stores_single_file_as_relative_path() {
    let repo_path = "/work/codeatlas/unittest/repos/single_file/standalone.rs";
    let walked = walk_dir(repo_path, true, &vec![]);
    let mut ids = IdGenerator::new();
    let repo = repo_add(
        AddQuery { repo: String::from("repo"), path: String::from(repo_path) },
        true,
        walked,
        &mut ids,
    );

    assert_eq!(String::from(repo_path), repo.root_path);
    let mut files = repo.files.iter().map(|f| f.path.clone()).collect::<Vec<_>>();
    files.sort();
    assert_eq!(vec![String::from("standalone.rs")], files);
}

#[test]
fn test_repo_new_assigns_unique_ids() {
    let mut ids = IdGenerator::new();
    let repo1 = Repo::new(String::from("repo1"), String::from("path1"), vec![], &mut ids);
    let repo2 = Repo::new(String::from("repo2"), String::from("path2"), vec![], &mut ids);

    assert_ne!(repo1.id, repo2.id);
    assert!(repo1.id > RepoId(0));
    assert!(repo2.id > RepoId(0));
}

#[test]
fn test_extract_symbols_reads_relative_repo_files() {
    let file_node = FileNode {
        id: FileId(1),
        path: String::from("repo.rs"),
        language: LanguageKind::Rust,
    };
    let mut ids = IdGenerator::new();
    let repo = Repo::new(String::from("repo"), String::from("/work/src/repo"), vec![file_node], &mut ids);
    let source = "use std::fs;\npub struct FileId(pub u64);\nfn repo_root(path: &str) -> &str { path }\n";
    let mut parser = RustParser::new().expect("failed to rust grammar");

    let (symbols, unparsed) = repo.extract_symbols(&mut parser, &vec![Some(String::from(source))], &mut ids);
    assert!(unparsed.is_empty());

    assert!(!symbols.is_empty());
    assert_eq!(symbols.len(), 3);
    assert_eq!(symbols[0].qualified_name, "crate::repo::std::fs");
    assert_eq!(symbols[1].qualified_name, "crate::repo::repo_root");
    assert_eq!(symbols[2].qualified_name, "crate::repo::FileId");
}

#[test]
fn extract_symbols_skips_unreadable_files() {
    let files = vec![
        FileNode { id: FileId(1), path: String::from("a.rs"), language: LanguageKind::Rust },
        FileNode { id: FileId(2), path: String::from("src/b.rs"), language: LanguageKind::Rust },
    ];
    let mut ids = IdGenerator::new();
    let repo = Repo::new(String::from("repo"), String::from("/r"), files, &mut ids);
    let mut parser = RustParser::new().expect("parser");
    let (symbols, _) = repo.extract_symbols(
        &mut parser,
        &vec![None, Some(String::from("fn f() {}\nfn g(x: u8, y: u8) {}\n"))],
        &mut ids,
    );
    assert_eq!(symbols.len(), 2);
    assert_eq!(symbols[0].file, FileId(2));
    assert_eq!(symbols[0].qualified_name, "crate::b::f");
    assert_eq!(symbols[1].qualified_name, "crate::b::g");
    assert_ne!(symbols[0].id, symbols[1].id);
}

#[test]
fn test_build_edges_links_repo_files_and_symbols() {
    let file_id = FileId(11);
    let symbol_id = SymbolId(21);
    let mut ids = IdGenerator::new();
    let mut repo = Repo::new(
        String::from("repo"),
        String::from("path"),
        vec![FileNode { id: file_id, path: String::from("repo.rs"), language: LanguageKind::Rust }],
        &mut ids,
    );
    repo.symbols = vec![edge_id_symbol(file_id, symbol_id)];

    let edges = repo.build_edges(&mut ids);

    assert_eq!(edges.len(), 2);
    assert!(edges.iter().any(|edge| matches!(
        (&edge.kind, &edge.from, &edge.to),
        (EdgeKind::Contain, NodeRef::Repo(repo_id), NodeRef::File(id))
            if *repo_id == repo.id && *id == file_id
    )));
    assert!(edges.iter().any(|edge| matches!(
        (&edge.kind, &edge.from, &edge.to),
        (EdgeKind::Contain, NodeRef::File(id), NodeRef::Symbol(symbol))
            if *id == file_id && *symbol == symbol_id
    )));
    assert_ne!(edges[0].id, edges[1].id);
}

#[test]
fn test_find_symbols_uses_edges_to_resolve_file_and_kind() {
    let file_id = FileId(11);
    let symbol_id = SymbolId(21);
    let mut ids = IdGenerator::new();
    let mut repo = Repo::new(
        String::from("repo"),
        String::from("path"),
        vec![FileNode { id: file_id, path: String::from("src/repo.rs"), language: LanguageKind::Rust }],
        &mut ids,
    );
    let mut symbol = edge_id_symbol(FileId(999), symbol_id);
    symbol.span = Span { start_line: 27, start_col: 1, end_line: 27, end_col: 24 };
    repo.symbols = vec![symbol];
    repo.edges = vec![
        Edge { id: EdgeId(31), kind: EdgeKind::Contain, from: NodeRef::Repo(repo.id), to: NodeRef::File(file_id) },
        Edge { id: EdgeId(32), kind: EdgeKind::Contain, from: NodeRef::File(file_id), to: NodeRef::Symbol(symbol_id) },
    ];

    let matches = repo.find_symbols("EdgeId");

    assert_eq!(matches.len(), 1);
    assert_eq!(matches[0].name, "EdgeId");
    assert_eq!(matches[0].qualified_name, "crate::repo::EdgeId");
    assert_eq!(matches[0].module.as_deref(), Some("crate::repo"));
    assert_eq!(
        repo.resolve_symbol_file_path(matches[0].id, false),
        Some(String::from("path/src/repo.rs"))
    );
    match &matches[0].info {
        SymbolInfo::Struct(info) => assert_eq!(info.members, vec![String::from("u64")]),
        _ => panic!("expected struct symbol"),
    }
}

#[test]
fn find_symbols_ignores_symbols_without_repo_file_edge() {
    let file_id = FileId(11);
    let mut ids = IdGenerator::new();
    let mut repo = Repo::new(
        String::from("repo"),
        String::from("path"),
        vec![FileNode { id: file_id, path: String::from("src/repo.rs"), language: LanguageKind::Rust }],
        &mut ids,
    );
    repo.symbols = vec![edge_id_symbol(file_id, SymbolId(21))];
    repo.edges = vec![Edge {
        id: EdgeId(32),
        kind: EdgeKind::Contain,
        from: NodeRef::File(file_id),
        to: NodeRef::Symbol(SymbolId(21)),
    }];
    assert!(repo.find_symbols("EdgeId").is_empty());
    assert_eq!(repo.resolve_symbol_file_path(SymbolId(21), false), None);
    repo.edges = repo.build_edges(&mut ids);
    assert_eq!(repo.find_symbols("crate::repo::EdgeId").len(), 1);
    assert!(repo.find_symbols("Edge").is_empty());
}

#[test]
fn resolve_file_path_uses_parent_of_single_file_repo() {
    let mut ids = IdGenerator::new();
    let repo = Repo::new(String::from("r"), String::from("/a/b/one.rs"), vec![], &mut ids);
    assert_eq!(repo.resolve_file_path("one.rs", true), "/a/b/one.rs");
    assert_eq!(repo.resolve_file_path("/abs/x.rs", true), "/abs/x.rs");
    assert_eq!(repo.repo_root(false), "/a/b/one.rs");
    assert_eq!(repo_root("/", true), "/");
    assert_eq!(repo_root("/top.rs", true), "/");
}

#[test]
fn relativize_files_keeps_paths_outside_the_root() {
    let files = vec![String::from("/r/src/a.rs"), String::from("/other/b.rs"), String::from("/r")];
    assert_eq!(
        relativize_files("/r", false, files),
        vec![String::from("src/a.rs"), String::from("/other/b.rs"), String::from("")]
    );
    assert_eq!(
        relativize_files("/r/x.rs", true, vec![String::from("/r/x.rs")]),
        vec![String::from("x.rs")]
    );
}

#[test]
fn walk_dir_keeps_only_rust_files() {
    let entries = vec![
        entry("/r/a.rs", true),
        entry("/r/b.txt", true),
        entry("/r/dir.rs", false),
        entry("/r/.rs", true),
        entry("/r/c.rs", true),
    ];
    assert_eq!(walk_dir("/r", false, &entries), vec![String::from("/r/a.rs"), String::from("/r/c.rs")]);
    assert_eq!(walk_dir("/r/notes.txt", true, &entries), vec![String::from("/r/notes.txt")]);
}

#[test]
fn repo_add_numbers_files_before_the_repo() {
    let mut ids = IdGenerator::new();
    let repo = repo_add(
        AddQuery { repo: String::from("r"), path: String::from("/r") },
        false,
        vec![String::from("/r/a.rs"), String::from("/r/b.rs")],
        &mut ids,
    );
    assert_eq!(repo.files[0].id, FileId(1));
    assert_eq!(repo.files[1].id, FileId(2));
    assert_eq!(repo.id, RepoId(3));
    assert!(repo.symbols.is_empty() && repo.edges.is_empty());
    assert!(!repo_delete(DeleteQuery { repo: String::from("r") }));
}
