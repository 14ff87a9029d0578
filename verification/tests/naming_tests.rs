use codeatlas::naming::{
    canonical_module_path, join_path, make_qualified_name, module_path_for_file,
    resolve_import_path,
};

#[test]
fn test_module_path_for_file_handles_root_and_mod_files() {
    assert_eq!(module_path_for_file("src/lib.rs"), "crate");
    assert_eq!(module_path_for_file("src/repo/mod.rs"), "crate::repo");
    assert_eq!(
        module_path_for_file("src/extraction/rs/extraction.rs"),
        "crate::extraction::rs::extraction"
    );
}

#[test]
fn test_make_qualified_name_uses_canonical_module_path() {
    assert_eq!(make_qualified_name("repo", "add"), "crate::repo::add");
    assert_eq!(make_qualified_name("crate::repo", "add"), "crate::repo::add");
}

#[test]
fn test_resolve_import_path_handles_relative_and_std_paths() {
    assert_eq!(
        resolve_import_path("crate::repo::sub", "self::inner::Thing"),
        "crate::repo::sub::inner::Thing"
    );
    assert_eq!(
        resolve_import_path("crate::repo::sub", "super::util::helper"),
        "crate::repo::util::helper"
    );
    assert_eq!(
        resolve_import_path("crate::repo::sub::leaf", "super::super::util::helper"),
        "crate::repo::util::helper"
    );
    assert_eq!(resolve_import_path("crate::repo::sub", "std::fs"), "std::fs");
}

#[test]
fn module_path_for_file_strips_main_and_extension() {
    assert_eq!(module_path_for_file("src/main.rs"), "crate");
    assert_eq!(module_path_for_file("lib.rs"), "crate");
    assert_eq!(module_path_for_file("tools/gen.rs"), "crate::tools::gen");
    assert_eq!(module_path_for_file("src/a.b.rs"), "crate::a.b");
    assert_eq!(module_path_for_file("src//x/./y.rs"), "crate::x::y");
    assert_eq!(module_path_for_file(""), "crate");
}

#[test]
fn canonical_module_path_anchors_at_crate() {
    assert_eq!(canonical_module_path(""), "crate");
    assert_eq!(canonical_module_path("crate"), "crate");
    assert_eq!(canonical_module_path("crate::a"), "crate::a");
    assert_eq!(canonical_module_path("crates::a"), "crate::crates::a");
    assert_eq!(canonical_module_path(&canonical_module_path("x::y")), "crate::x::y");
}

#[test]
fn make_qualified_name_with_empty_name_is_the_module() {
    assert_eq!(make_qualified_name("", ""), "crate");
    assert_eq!(make_qualified_name("a", ""), "crate::a");
}

#[test]
fn join_path_skips_empty_sides() {
    assert_eq!(join_path("", "x"), "x");
    assert_eq!(join_path("a", ""), "a");
    assert_eq!(join_path("a::b", "c"), "a::b::c");
}

#[test]
fn resolve_import_path_edge_cases() {
    assert_eq!(resolve_import_path("repo", "crate::x"), "crate::x");
    assert_eq!(resolve_import_path("repo", "self::self::x"), "crate::repo::x");
    assert_eq!(resolve_import_path("crate::a", "super::super::super::x"), "crate::x");
    assert_eq!(resolve_import_path("crate::a::b", "super::"), "crate::a");
    assert_eq!(resolve_import_path("", "core::mem"), "core::mem");
    assert_eq!(resolve_import_path("", "alloc"), "alloc");
    assert_eq!(resolve_import_path("", "serde::Serialize"), "crate::serde::Serialize");
    assert_eq!(resolve_import_path("", "stdx::a"), "crate::stdx::a");
}
