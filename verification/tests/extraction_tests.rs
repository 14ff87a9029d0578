use codeatlas::extraction::{
    extract_import_info, rs_extract_functions, rs_extract_imports, rs_extract_structs,
};
use codeatlas::ids::{FileId, IdGenerator};
use codeatlas::repo::{FileNode, ImportInfo, LanguageKind, StructInfo, SymbolInfo, SymbolNode};
use codeatlas::syntax::{RustParser, SyntaxTree};

fn parse(source: &str) -> SyntaxTree {
    let mut parser = RustParser::new().expect("load rust grammar");
    parser.parse(source).expect("parse source")
}

fn parse_use_imports(source: &str) -> Vec<ImportInfo> {
    let tree = parse(source);
    let first = tree.nodes_of_kind("use_declaration")[0];
    extract_import_info(&tree, first)
}

fn make_file_node() -> FileNode {
    FileNode { id: FileId(1), path: String::from("src/repo/repo.rs"), language: LanguageKind::Rust }
}

fn by_name<'a>(symbols: &'a [SymbolNode], name: &str) -> &'a SymbolNode {
    symbols
        .iter()
        .find(|s| s.name == name)
        .unwrap_or_else(|| panic!("symbol '{}' not found", name))
}

fn import(path: &str, alias: Option<&str>, is_glob: bool) -> ImportInfo {
    ImportInfo {
        import_path: String::from(path),
        alias: alias.map(String::from),
        is_glob,
        resolved_path: None,
    }
}

#[test]
fn test_extract_import_info_identifier() {
    assert_eq!(parse_use_imports("use std::fs;\n"), vec![import("std::fs", None, false)]);
}

#[test]
fn test_extract_import_info_use_as_clause() {
    assert_eq!(
        parse_use_imports("use std::fs as file_system;\n"),
        vec![import("std::fs", Some("file_system"), false)]
    );
}

#[test]
fn test_extract_import_info_use_wildcard() {
    assert_eq!(parse_use_imports("use std::io::*;\n"), vec![import("std::io::*", None, true)]);
}

#[test]
fn test_extract_import_info_scoped_use_list() {
    assert_eq!(
        parse_use_imports("use std::io::{BufWriter, Write};\n"),
        vec![import("std::io::BufWriter", None, false), import("std::io::Write", None, false)]
    );
}

#[test]
fn extract_import_info_nested_lists_and_self() {
    assert_eq!(
        parse_use_imports("use a::{b::{c, d as e}, self, f::*};\n"),
        vec![
            import("a::b::c", None, false),
            import("a::b::d", Some("e"), false),
            import("a::self", None, false),
            import("a::f::*", None, true),
        ]
    );
    assert_eq!(parse_use_imports("use {x, y};\n"), vec![import("x", None, false), import("y", None, false)]);
}

#[test]
fn test_rs_extract_functions_sets_module_and_qualified_name() {
    let source = "fn demo(a: i32) {}\n";
    let tree = parse(source);
    let file_node = FileNode { id: FileId(1), path: String::from("repo.rs"), language: LanguageKind::Rust };
    let mut ids = IdGenerator::new();

    let symbols = rs_extract_functions(&tree, &file_node, "repo", &mut ids);
    assert_eq!(symbols.len(), 1);

    let symbol = &symbols[0];
    assert_eq!(symbol.module.as_deref(), Some("crate::repo"));
    assert_eq!(symbol.qualified_name, "crate::repo::demo");
    match &symbol.info {
        SymbolInfo::Function(f) => assert_eq!(f.args, Some(vec![String::from("a: i32")])),
        _ => panic!("expected function symbol"),
    }
    assert_eq!(symbol.span.start_line, 1);
    assert_eq!(symbol.span.start_col, 1);
    assert_eq!(symbol.span.end_col, 19);
}

#[test]
fn test_rs_extract_imports_sets_resolved_module_and_qualified_name() {
    let source = "use self::inner::Thing as Alias;\n";
    let tree = parse(source);
    let file_node = FileNode { id: FileId(1), path: String::from("repo.rs"), language: LanguageKind::Rust };
    let mut ids = IdGenerator::new();

    let symbols = rs_extract_imports(&tree, &file_node, "crate::repo::sub", &mut ids);
    assert_eq!(symbols.len(), 1);

    let symbol = &symbols[0];
    assert_eq!(symbol.name, "Alias");
    assert_eq!(symbol.module.as_deref(), Some("crate::repo::sub"));
    assert_eq!(symbol.qualified_name, "crate::repo::sub::Alias");
    match &symbol.info {
        SymbolInfo::Import(import) => assert_eq!(
            import.resolved_path.as_deref(),
            Some("crate::repo::sub::inner::Thing")
        ),
        _ => panic!("expected import symbol"),
    }
}

#[test]
fn test_rs_extract_functions_nested_mod_sets_correct_module_path() {
    let source = r#"
mod inner {
    pub fn helper() {}
    mod deep {
        pub fn nested() {}
    }
}
fn top_level() {}
"#;
    let tree = parse(source);
    let mut ids = IdGenerator::new();

    let symbols = rs_extract_functions(&tree, &make_file_node(), "crate::repo::repo", &mut ids);

    let helper = by_name(&symbols, "helper");
    assert_eq!(helper.module.as_deref(), Some("crate::repo::repo::inner"));
    assert_eq!(helper.qualified_name, "crate::repo::repo::inner::helper");

    let nested = by_name(&symbols, "nested");
    assert_eq!(nested.module.as_deref(), Some("crate::repo::repo::inner::deep"));
    assert_eq!(nested.qualified_name, "crate::repo::repo::inner::deep::nested");

    let top = by_name(&symbols, "top_level");
    assert_eq!(top.module.as_deref(), Some("crate::repo::repo"));
    assert_eq!(top.qualified_name, "crate::repo::repo::top_level");
}

#[test]
fn test_rs_extract_imports_nested_mod_sets_correct_module_path() {
    let source = r#"
mod utils {
    use std::collections::HashMap;
}
use std::fs;
"#;
    let tree = parse(source);
    let mut ids = IdGenerator::new();

    let symbols = rs_extract_imports(&tree, &make_file_node(), "crate::repo::repo", &mut ids);

    let hashmap_sym = symbols.iter().find(|s| s.name.contains("HashMap")).expect("HashMap import");
    assert_eq!(hashmap_sym.module.as_deref(), Some("crate::repo::repo::utils"));

    let fs_sym = symbols.iter().find(|s| s.name.contains("fs")).expect("fs import");
    assert_eq!(fs_sym.module.as_deref(), Some("crate::repo::repo"));
}

#[test]
fn test_rs_extract_structs_collects_members_and_nested_mod_paths() {
    let source = r#"
pub struct Config {
    enabled: bool,
    pub count: usize,
}

mod inner {
    struct State {
        name: String,
        active: bool,
    }
}

struct Unit;
"#;
    let tree = parse(source);
    let mut ids = IdGenerator::new();

    let symbols = rs_extract_structs(&tree, &make_file_node(), "crate::repo::repo", &mut ids);

    let config = by_name(&symbols, "Config");
    assert_eq!(config.module.as_deref(), Some("crate::repo::repo"));
    assert_eq!(config.qualified_name, "crate::repo::repo::Config");
    assert!(matches!(
        &config.info,
        SymbolInfo::Struct(StructInfo { members }) if members == &vec![String::from("enabled"), String::from("count")]
    ));

    let state = by_name(&symbols, "State");
    assert_eq!(state.module.as_deref(), Some("crate::repo::repo::inner"));
    assert_eq!(state.qualified_name, "crate::repo::repo::inner::State");
    assert!(matches!(
        &state.info,
        SymbolInfo::Struct(StructInfo { members }) if members == &vec![String::from("name"), String::from("active")]
    ));

    let unit = by_name(&symbols, "Unit");
    assert!(matches!(&unit.info, SymbolInfo::Struct(StructInfo { members }) if members.is_empty()));
}

#[test]
fn test_rs_extract_structs_collects_tuple_struct_field_types() {
    let source = r#"
pub struct EdgeId(u64);
struct Pair(pub String, bool);
"#;
    let tree = parse(source);
    let mut ids = IdGenerator::new();

    let symbols = rs_extract_structs(&tree, &make_file_node(), "crate::repo::repo", &mut ids);

    let edge_id = by_name(&symbols, "EdgeId");
    assert!(matches!(
        &edge_id.info,
        SymbolInfo::Struct(StructInfo { members }) if members == &vec![String::from("u64")]
    ));

    let pair = by_name(&symbols, "Pair");
    assert!(matches!(
        &pair.info,
        SymbolInfo::Struct(StructInfo { members }) if members == &vec![String::from("String"), String::from("bool")]
    ));
}

#[test]
fn extracted_symbols_get_consecutive_ids() {
    let tree = parse("fn a() {}\nfn b(&self) {}\n");
    let mut ids = IdGenerator::new();
    let symbols = rs_extract_functions(&tree, &make_file_node(), "m", &mut ids);
    assert_eq!(symbols.len(), 2);
    assert_eq!(symbols[0].id.0 + 1, symbols[1].id.0);
    match &symbols[1].info {
        SymbolInfo::Function(f) => assert_eq!(f.args, Some(vec![String::from("&self")])),
        _ => panic!("expected function symbol"),
    }
}
