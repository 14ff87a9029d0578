use codeatlas::config::{
    AppConfig, AppConfigError, AppConfigErrorKind, IgnoreFilterConfig, PartialAppConfig,
    PartialIgnoreFilterConfig, PartialRepoScanConfig, RepoScanConfig, StoredConfig,
    APP_CONFIG_PATH,
};

const PATH: &str = "/tmp/config/app-config.json";

#[test]
fn load_creates_default_config_when_missing() {
    let load = AppConfig::resolve_stored(PATH, StoredConfig::Missing).expect("load config");
    assert_eq!(load.config, AppConfig::default());
    assert!(load.write_back);
    assert!(load.config.repo_scan.ignore_filter.enabled);
    assert!(load.config.repo_scan.ignore_filter.read_repo_gitignore);
}

#[test]
fn load_backfills_missing_fields() {
    let partial = PartialAppConfig {
        repo_scan: Some(PartialRepoScanConfig {
            ignore_filter: Some(PartialIgnoreFilterConfig { enabled: Some(false), read_repo_gitignore: None }),
        }),
    };
    let load = AppConfig::resolve_stored(PATH, StoredConfig::Parsed(partial)).expect("load config");
    assert_eq!(
        load.config,
        AppConfig {
            repo_scan: RepoScanConfig {
                ignore_filter: IgnoreFilterConfig { enabled: false, read_repo_gitignore: true },
            },
        }
    );
    assert!(load.write_back);
}

#[test]
fn load_of_complete_file_needs_no_rewrite() {
    let partial = PartialAppConfig {
        repo_scan: Some(PartialRepoScanConfig {
            ignore_filter: Some(PartialIgnoreFilterConfig { enabled: Some(true), read_repo_gitignore: Some(false) }),
        }),
    };
    let load = AppConfig::resolve_stored(PATH, StoredConfig::Parsed(partial)).expect("load config");
    assert!(!load.write_back);
    assert!(!load.config.repo_scan.ignore_filter.read_repo_gitignore);
    let empty = AppConfig::resolve_stored(PATH, StoredConfig::Parsed(PartialAppConfig::default())).expect("load");
    assert_eq!(empty.config, AppConfig::default());
    assert!(empty.write_back);
}

#[test]
fn load_rejects_invalid_json() {
    let error = AppConfig::resolve_stored(PATH, StoredConfig::Invalid(String::from("expected value")))
        .expect_err("invalid config should fail");
    let message = error.message();
    assert!(message.contains("app-config.json"));
    assert!(message.contains("delete the file"));
    assert_eq!(
        message,
        "Invalid application config /tmp/config/app-config.json: expected value. You can delete the file and rerun the command to recreate it."
    );
}

#[test]
fn load_reports_unreadable_file() {
    let error = AppConfig::resolve_stored(PATH, StoredConfig::Unreadable(String::from("permission denied")))
        .expect_err("unreadable config should fail");
    assert!(matches!(error.kind, AppConfigErrorKind::Read(_)));
    assert_eq!(
        error.message(),
        "Failed to read application config /tmp/config/app-config.json: permission denied"
    );
    let other = AppConfigError { path: String::from(APP_CONFIG_PATH), kind: AppConfigErrorKind::Parse(String::from("x")) };
    assert!(other.message().starts_with("Invalid application config ./config/app-config.json: x."));
}
