//! Application configuration: the settings, the partial settings a stored file may hold,
//! and how a stored file turns into settings.
use vstd::prelude::*;

verus! {

/// Where the application keeps its configuration.
pub const APP_CONFIG_PATH: &'static str = "./config/app-config.json";

/// Settings of the ignore filter used while scanning a repository.
#[derive(Debug, Clone, Copy, PartialEq, Eq, Structural)]
pub struct IgnoreFilterConfig {
    pub enabled: bool,
    pub read_repo_gitignore: bool,
}

/// Settings of repository scanning.
#[derive(Debug, Clone, Copy, PartialEq, Eq, Structural)]
pub struct RepoScanConfig {
    pub ignore_filter: IgnoreFilterConfig,
}

/// All settings of the application.
#[derive(Debug, Clone, Copy, PartialEq, Eq, Structural)]
pub struct AppConfig {
    pub repo_scan: RepoScanConfig,
}

/// The default settings: everything enabled.
pub open spec fn default_ignore_filter() -> IgnoreFilterConfig {
    IgnoreFilterConfig { enabled: true, read_repo_gitignore: true }
}

/// The default application settings.
pub open spec fn default_app_config() -> AppConfig {
    AppConfig { repo_scan: RepoScanConfig { ignore_filter: default_ignore_filter() } }
}

impl Default for IgnoreFilterConfig {
    fn default() -> (r: Self)
        ensures
            r == default_ignore_filter(),
    {
        IgnoreFilterConfig { enabled: true, read_repo_gitignore: true }
    }
}

impl Default for RepoScanConfig {
    fn default() -> (r: Self)
        ensures
            r.ignore_filter == default_ignore_filter(),
    {
        RepoScanConfig { ignore_filter: IgnoreFilterConfig::default() }
    }
}

impl Default for AppConfig {
    fn default() -> (r: Self)
        ensures
            r == default_app_config(),
    {
        AppConfig { repo_scan: RepoScanConfig::default() }
    }
}

/// Ignore-filter settings as a stored file may hold them, each possibly missing.
#[derive(Debug, Clone, Copy, PartialEq, Eq, Structural)]
pub struct PartialIgnoreFilterConfig {
    pub enabled: Option<bool>,
    pub read_repo_gitignore: Option<bool>,
}

/// Repository-scan settings as a stored file may hold them.
#[derive(Debug, Clone, Copy, PartialEq, Eq, Structural)]
pub struct PartialRepoScanConfig {
    pub ignore_filter: Option<PartialIgnoreFilterConfig>,
}

/// Application settings as a stored file may hold them.
#[derive(Debug, Clone, Copy, PartialEq, Eq, Structural)]
pub struct PartialAppConfig {
    pub repo_scan: Option<PartialRepoScanConfig>,
}

impl Default for PartialIgnoreFilterConfig {
    fn default() -> (r: Self)
        ensures
            r.enabled is None && r.read_repo_gitignore is None,
    {
        PartialIgnoreFilterConfig { enabled: None, read_repo_gitignore: None }
    }
}

impl Default for PartialRepoScanConfig {
    fn default() -> (r: Self)
        ensures
            r.ignore_filter is None,
    {
        PartialRepoScanConfig { ignore_filter: None }
    }
}

impl Default for PartialAppConfig {
    fn default() -> (r: Self)
        ensures
            r.repo_scan is None,
    {
        PartialAppConfig { repo_scan: None }
    }
}

/// A stored setting, or `true` when it is missing.
pub open spec fn or_true(b: Option<bool>) -> bool {
    match b {
        Some(v) => v,
        None => true,
    }
}

/// Complete ignore-filter settings: the stored values, the defaults where missing.
pub open spec fn complete_ignore_filter(p: PartialIgnoreFilterConfig) -> IgnoreFilterConfig {
    IgnoreFilterConfig { enabled: or_true(p.enabled), read_repo_gitignore: or_true(p.read_repo_gitignore) }
}

/// Complete repository-scan settings.
pub open spec fn complete_repo_scan(p: PartialRepoScanConfig) -> RepoScanConfig {
    RepoScanConfig {
        ignore_filter: match p.ignore_filter {
            Some(f) => complete_ignore_filter(f),
            None => default_ignore_filter(),
        },
    }
}

/// Complete application settings.
pub open spec fn complete_app_config(p: PartialAppConfig) -> AppConfig {
    AppConfig {
        repo_scan: match p.repo_scan {
            Some(r) => complete_repo_scan(r),
            None => RepoScanConfig { ignore_filter: default_ignore_filter() },
        },
    }
}

/// Some ignore-filter setting is missing.
pub open spec fn ignore_filter_incomplete(p: PartialIgnoreFilterConfig) -> bool {
    p.enabled is None || p.read_repo_gitignore is None
}

/// Some repository-scan setting is missing.
pub open spec fn repo_scan_incomplete(p: PartialRepoScanConfig) -> bool {
    match p.ignore_filter {
        Some(f) => ignore_filter_incomplete(f),
        None => true,
    }
}

/// Some application setting is missing.
pub open spec fn app_config_incomplete(p: PartialAppConfig) -> bool {
    match p.repo_scan {
        Some(r) => repo_scan_incomplete(r),
        None => true,
    }
}

/// The stored form of complete settings: every setting present.
pub open spec fn stored_form(c: AppConfig) -> PartialAppConfig {
    PartialAppConfig {
        repo_scan: Some(
            PartialRepoScanConfig {
                ignore_filter: Some(
                    PartialIgnoreFilterConfig {
                        enabled: Some(c.repo_scan.ignore_filter.enabled),
                        read_repo_gitignore: Some(c.repo_scan.ignore_filter.read_repo_gitignore),
                    },
                ),
            },
        ),
    }
}

impl PartialIgnoreFilterConfig {
    /// The stored values, `true` where missing.
    pub fn into_complete(self) -> (r: IgnoreFilterConfig)
        ensures
            r == complete_ignore_filter(self),
    {
        IgnoreFilterConfig {
            enabled: match self.enabled {
                Some(v) => v,
                None => true,
            },
            read_repo_gitignore: match self.read_repo_gitignore {
                Some(v) => v,
                None => true,
            },
        }
    }

    /// Whether a setting is missing.
    pub fn is_incomplete(&self) -> (r: bool)
        ensures
            r == ignore_filter_incomplete(*self),
    {
        self.enabled.is_none() || self.read_repo_gitignore.is_none()
    }
}

impl PartialRepoScanConfig {
    /// The stored values, defaults where missing.
    pub fn into_complete(self) -> (r: RepoScanConfig)
        ensures
            r == complete_repo_scan(self),
    {
        let filter = match self.ignore_filter {
            Some(f) => f,
            None => PartialIgnoreFilterConfig::default(),
        };
        RepoScanConfig { ignore_filter: filter.into_complete() }
    }

    /// Whether a setting is missing.
    pub fn is_incomplete(&self) -> (r: bool)
        ensures
            r == repo_scan_incomplete(*self),
    {
        match &self.ignore_filter {
            Some(f) => f.is_incomplete(),
            None => true,
        }
    }
}

impl PartialAppConfig {
    /// The stored values, defaults where missing.
    pub fn into_complete(self) -> (r: AppConfig)
        ensures
            r == complete_app_config(self),
    {
        let scan = match self.repo_scan {
            Some(r) => r,
            None => PartialRepoScanConfig::default(),
        };
        AppConfig { repo_scan: scan.into_complete() }
    }

    /// Whether a setting is missing, so that the stored file should be completed.
    pub fn is_incomplete(&self) -> (r: bool)
        ensures
            r == app_config_incomplete(*self),
    {
        match &self.repo_scan {
            Some(r) => r.is_incomplete(),
            None => true,
        }
    }
}

/// What went wrong with the stored configuration.
#[derive(Debug)]
pub enum AppConfigErrorKind {
    /// The file could not be read; the reason.
    Read(String),
    /// The file is not valid configuration; the reason.
    Parse(String),
}

/// A stored configuration that could not be used.
#[derive(Debug)]
pub struct AppConfigError {
    pub path: String,
    pub kind: AppConfigErrorKind,
}

/// The text that describes a configuration error.
pub open spec fn spec_error_message(path: Seq<char>, kind: AppConfigErrorKind) -> Seq<char> {
    match kind {
        AppConfigErrorKind::Read(e) => "Failed to read application config "@ + path + ": "@ + e@,
        AppConfigErrorKind::Parse(e) => "Invalid application config "@ + path + ": "@ + e@
            + ". You can delete the file and rerun the command to recreate it."@,
    }
}

impl AppConfigError {
    /// The text that describes the error, naming the file.
    pub fn message(&self) -> (r: String)
        ensures
            r@ == spec_error_message(self.path@, self.kind),
    {
        match &self.kind {
            AppConfigErrorKind::Read(e) => {
                let mut m = String::from_str("Failed to read application config ");
                m.append(self.path.as_str());
                m.append(": ");
                m.append(e.as_str());
                m
            },
            AppConfigErrorKind::Parse(e) => {
                let mut m = String::from_str("Invalid application config ");
                m.append(self.path.as_str());
                m.append(": ");
                m.append(e.as_str());
                m.append(". You can delete the file and rerun the command to recreate it.");
                m
            },
        }
    }
}

/// What was found at the configuration path.
pub enum StoredConfig {
    /// No file.
    Missing,
    /// A file that could not be read, and why.
    Unreadable(String),
    /// A file whose content is not configuration, and why.
    Invalid(String),
    /// A file holding these settings.
    Parsed(PartialAppConfig),
}

/// The settings to use, and whether the stored file should be written anew.
#[derive(Debug)]
pub struct ConfigLoad {
    pub config: AppConfig,
    pub write_back: bool,
}

impl AppConfig {
    /// The settings to use given what was found at `path`: the defaults, to be written,
    /// when there is no file; an error naming `path` when the file cannot be read or is not
    /// configuration; otherwise the stored settings completed with defaults, to be written
    /// back when some were missing.
    pub fn resolve_stored(path: &str, stored: StoredConfig) -> (r: Result<ConfigLoad, AppConfigError>)
        ensures
            match stored {
                StoredConfig::Missing => r matches Ok(l) && l.config == default_app_config() && l.write_back,
                StoredConfig::Unreadable(e) => r matches Err(err) && err.path@ == path@
                    && (err.kind matches AppConfigErrorKind::Read(x) && x@ == e@),
                StoredConfig::Invalid(e) => r matches Err(err) && err.path@ == path@
                    && (err.kind matches AppConfigErrorKind::Parse(x) && x@ == e@),
                StoredConfig::Parsed(p) => r matches Ok(l) && l.config == complete_app_config(p)
                    && l.write_back == app_config_incomplete(p),
            },
    {
        match stored {
            StoredConfig::Missing => Ok(ConfigLoad { config: AppConfig::default(), write_back: true }),
            StoredConfig::Unreadable(e) => Err(
                AppConfigError { path: path.to_owned(), kind: AppConfigErrorKind::Read(e) },
            ),
            StoredConfig::Invalid(e) => Err(
                AppConfigError { path: path.to_owned(), kind: AppConfigErrorKind::Parse(e) },
            ),
            StoredConfig::Parsed(p) => {
                let write_back = p.is_incomplete();
                Ok(ConfigLoad { config: p.into_complete(), write_back })
            },
        }
    }
}

/// Completing stored settings keeps every value that was stored and sets every missing one
/// to `true`.
pub proof fn lemma_backfill_keeps_stored_values(p: PartialIgnoreFilterConfig)
    ensures
        p.enabled matches Some(v) ==> complete_ignore_filter(p).enabled == v,
        p.enabled is None ==> complete_ignore_filter(p).enabled,
        p.read_repo_gitignore matches Some(v) ==> complete_ignore_filter(p).read_repo_gitignore == v,
        p.read_repo_gitignore is None ==> complete_ignore_filter(p).read_repo_gitignore,
{
}

/// Settings written back in full load again as the same settings, with nothing left to
/// complete: loading after a write-back is stable.
pub proof fn lemma_stored_form_round_trip(c: AppConfig)
    ensures
        complete_app_config(stored_form(c)) == c,
        !app_config_incomplete(stored_form(c)),
{
}

/// Loading completes a partial file once: writing the completed settings back and loading
/// again gives the same settings and asks for no further write.
pub proof fn lemma_backfill_is_stable(p: PartialAppConfig)
    ensures
        complete_app_config(stored_form(complete_app_config(p))) == complete_app_config(p),
        !app_config_incomplete(stored_form(complete_app_config(p))),
{
    lemma_stored_form_round_trip(complete_app_config(p));
}

/// A file that holds every setting needs no write-back.
pub proof fn lemma_complete_file_needs_no_write(p: PartialAppConfig)
    requires
        p.repo_scan matches Some(r) && r.ignore_filter matches Some(f) && f.enabled is Some
            && f.read_repo_gitignore is Some,
    ensures
        !app_config_incomplete(p),
        stored_form(complete_app_config(p)) == p,
{
}

} // verus!
