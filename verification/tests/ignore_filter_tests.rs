use codeatlas::config::IgnoreFilterConfig;
use codeatlas::ignore_filter::{IgnoreRulesError, RepoScanFilter};

fn enabled_config() -> IgnoreFilterConfig {
    IgnoreFilterConfig { enabled: true, read_repo_gitignore: true }
}

fn lines(text: &[&str]) -> Option<Vec<String>> {
    Some(text.iter().map(|l| String::from(*l)).collect())
}

fn load_at(root: &str, text: &[&str]) -> RepoScanFilter {
    RepoScanFilter::load(&enabled_config(), root, lines(text)).expect("rules parse").expect("load filter")
}

#[test]
fn test_root_anchored_rule_matches_only_repo_root_path() {
    let filter = load_at("/repo-root", &["/src/lib.rs"]);

    assert!(filter.is_ignored("src/lib.rs", false));
    assert!(!filter.is_ignored("nested/src/lib.rs", false));
}

#[test]
fn test_negation_rule_reincludes_specific_file() {
    let filter = load_at("/repo-root", &["src/generated/*.rs", "!src/generated/keep.rs"]);

    assert!(filter.is_ignored("src/generated/drop.rs", false));
    assert!(!filter.is_ignored("src/generated/keep.rs", false));
}

#[test]
fn test_directory_rule_matches_directory_and_children() {
    let filter = load_at("/repo-root", &["build/"]);

    assert!(filter.is_ignored("build", true));
    assert!(filter.is_ignored("build/generated.rs", false));
    assert!(!filter.is_ignored("src/build.rs", false));
}

#[test]
fn test_load_only_uses_repo_root_gitignore() {
    // Without a `.gitignore` at the repository root there are no lines to load.
    let filter = RepoScanFilter::load(&enabled_config(), "/repo-root", None).expect("no error");

    assert!(filter.is_none());
}

#[test]
fn load_gives_no_filter_when_disabled_or_without_rules() {
    let disabled = IgnoreFilterConfig { enabled: false, read_repo_gitignore: true };
    assert!(RepoScanFilter::load(&disabled, "/r", lines(&["build/"])).expect("no error").is_none());
    let not_reading = IgnoreFilterConfig { enabled: true, read_repo_gitignore: false };
    assert!(RepoScanFilter::load(&not_reading, "/r", lines(&["build/"])).expect("no error").is_none());
    let only_comments = RepoScanFilter::load(&enabled_config(), "/r", lines(&["# only a comment", "   ", ""]));
    assert!(only_comments.expect("no error").is_none());
}

#[test]
fn load_reports_the_line_whose_glob_does_not_parse() {
    match RepoScanFilter::load(&enabled_config(), "/r", lines(&["build/", "# note", "a{b"])) {
        Err(IgnoreRulesError::Parse { line, .. }) => assert_eq!(line, 3),
        other => panic!("expected a parse error, got {:?}", other.map(|f| f.is_some())),
    }
}

#[test]
fn load_strips_byte_order_mark_and_trailing_space() {
    let filter = load_at("/r", &["\u{feff}target   ", "docs/"]);
    assert!(filter.is_ignored("target", true));
    assert!(filter.is_ignored("docs/index.md", false));
    assert!(!filter.is_ignored("src/main.rs", false));
}

#[test]
fn lookup_refuses_exactly_paths_left_rooted_after_stripping() {
    let filter = load_at("/repo-root", &["build/"]);
    assert!(filter.can_look_up("src/lib.rs"));
    assert!(filter.can_look_up("a//b"));
    assert!(filter.can_look_up("/repo-root/build/x.rs"));
    assert!(!filter.can_look_up(".//a"));
    assert!(!filter.can_look_up("/elsewhere/x.rs"));
    assert!(filter.is_ignored("/repo-root/build/x.rs", false));
    assert!(!filter.is_ignored("a//b", false));

    let nested = load_at("./a", &["b"]);
    assert!(!nested.can_look_up("a//b"));
    assert!(nested.can_look_up("a/b"));
    assert!(nested.is_ignored("a/b", false));
}
