use codeatlas::find::{find, find_in_repos, load_repos, FindQuery, FindScope, LoadedRepo, RepoSource};
use codeatlas::ids::{EdgeId, FileId, RepoId, SymbolId};
use codeatlas::repo::{
    Edge, EdgeKind, FileNode, LanguageKind, NodeRef, Repo, Span, StructInfo, SymbolInfo, SymbolNode,
};

fn sample_repo() -> Repo {
    Repo {
        id: RepoId(1),
        name: String::from("codeatlas"),
        root_path: String::from("/work/repo-root"),
        files: vec![FileNode { id: FileId(2), path: String::from("src/repo.rs"), language: LanguageKind::Rust }],
        symbols: vec![SymbolNode {
            id: SymbolId(3),
            file: FileId(999),
            name: String::from("EdgeId"),
            qualified_name: String::from("crate::repo::EdgeId"),
            module: Some(String::from("crate::repo")),
            info: SymbolInfo::Struct(StructInfo { members: vec![String::from("u64")] }),
            span: Span { start_line: 27, start_col: 1, end_line: 27, end_col: 24 },
        }],
        edges: vec![
            Edge { id: EdgeId(4), kind: EdgeKind::Contain, from: NodeRef::Repo(RepoId(1)), to: NodeRef::File(FileId(2)) },
            Edge { id: EdgeId(5), kind: EdgeKind::Contain, from: NodeRef::File(FileId(2)), to: NodeRef::Symbol(SymbolId(3)) },
        ],
    }
}

fn query(symbol: &str, list_mode: bool) -> FindQuery {
    FindQuery { symbol: String::from(symbol), scope: FindScope::All, list_mode }
}

#[test]
fn test_find_parse_symbol_only() {
    let expected_query = FindQuery { symbol: String::from("a"), scope: FindScope::All, list_mode: false };
    assert_eq!(expected_query, FindQuery::from_parts(String::from("a"), None, None, false));
}

#[test]
fn test_find_parse_symbol_and_dir() {
    let expected_query = FindQuery {
        symbol: String::from("a"),
        scope: FindScope::Dir(String::from("path")),
        list_mode: false,
    };
    assert_eq!(expected_query, FindQuery::from_parts(String::from("a"), Some(String::from("path")), None, false));
}

#[test]
fn test_find_parse_symbol_with_dir_and_list() {
    let expected_query = FindQuery {
        symbol: String::from("a"),
        scope: FindScope::Repo(String::from("repo")),
        list_mode: true,
    };
    assert_eq!(expected_query, FindQuery::from_parts(String::from("a"), None, Some(String::from("repo")), true));
}

#[test]
fn test_find_in_repos_returns_where_and_symbol_type() {
    let repos = vec![LoadedRepo { repo: sample_repo(), root_is_file: false }];
    let symbols = find_in_repos(&query("EdgeId", false), &repos, None);

    assert_eq!(symbols.len(), 1);
    assert_eq!(symbols[0].name, "EdgeId");
    assert_eq!(symbols[0].qualified_name, "crate::repo::EdgeId");
    assert_eq!(symbols[0].kind, "struct");
    assert_eq!(symbols[0].module.as_deref(), Some("crate::repo"));
    assert_eq!(symbols[0].span.start_line, 27);
    let path = symbols[0].path.as_str();
    assert!(path.starts_with('/'), "expected path to be absolute, got {path}");
    assert!(path.ends_with("repo-root/src/repo.rs"), "expected path to end with repo-root/src/repo.rs, got {path}");
    match &symbols[0].info {
        SymbolInfo::Struct(info) => assert_eq!(info.members[0], "u64"),
        _ => panic!("expected struct symbol"),
    }
}

#[test]
fn test_find_in_repos_list_mode_includes_details() {
    let repos = vec![LoadedRepo { repo: sample_repo(), root_is_file: false }];
    let symbols = find_in_repos(&query("EdgeId", true), &repos, None);
    match &symbols[0].info {
        SymbolInfo::Struct(info) => assert_eq!(info.members[0], "u64"),
        _ => panic!("expected struct symbol"),
    }
}

#[test]
fn find_in_repos_respects_directory_scope_and_order() {
    let mut repo = sample_repo();
    let mut second = repo.symbols[0].duplicate();
    second.id = SymbolId(6);
    second.span.start_line = 3;
    repo.symbols.push(second);
    repo.edges.push(Edge { id: EdgeId(7), kind: EdgeKind::Contain, from: NodeRef::File(FileId(2)), to: NodeRef::Symbol(SymbolId(6)) });
    let repos = vec![LoadedRepo { repo, root_is_file: false }];

    let all = find_in_repos(&query("crate::repo::EdgeId", false), &repos, None);
    assert_eq!(all.len(), 2);
    assert_eq!(all[0].span.start_line, 3);
    assert_eq!(all[1].span.start_line, 27);

    assert_eq!(find_in_repos(&query("EdgeId", false), &repos, Some("/work/repo-root/src")).len(), 2);
    assert_eq!(find_in_repos(&query("EdgeId", false), &repos, Some("/work/repo")).len(), 0);
    assert_eq!(find_in_repos(&query("Missing", false), &repos, None).len(), 0);
}

#[test]
fn find_reports_errors_in_order() {
    let q = query("EdgeId", false);
    assert_eq!(find(&q, Err(String::from("no dir")), Err(String::from("no repos"))).unwrap_err(), "no dir");
    assert_eq!(find(&q, Ok(None), Err(String::from("no repos"))).unwrap_err(), "no repos");
    let found = find(&q, Ok(None), Ok(vec![LoadedRepo { repo: sample_repo(), root_is_file: false }])).unwrap();
    assert_eq!(found.len(), 1);
}

#[test]
fn load_repos_reads_one_or_all() {
    assert_eq!(load_repos(&FindScope::Repo(String::from("demo"))), RepoSource::One(String::from("output/demo")));
    assert_eq!(load_repos(&FindScope::All), RepoSource::All);
    assert_eq!(load_repos(&FindScope::Dir(String::from("x"))), RepoSource::All);
}
