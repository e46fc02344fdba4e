//! The daemon's configuration model: one table per plugin, plus a
//! `[plugins]` table of enable/disable switches. Every optional field has
//! its default function right here; the TOML reader in the binary refers to
//! these same functions, so a field left out of the file and a config built
//! with `Default` always agree.

use vstd::prelude::*;

verus! {

pub fn default_true() -> (b: bool)
    ensures
        b,
{
    true
}

pub fn default_false() -> (b: bool)
    ensures
        !b,
{
    false
}

/// Which plugins run. The five core automations are on unless switched
/// off; the dotfiles doctor, profiles and validation are opt-in.
#[derive(Debug, Clone)]
pub struct PluginToggles {
    pub theme_sync: bool,
    pub fleet_health: bool,
    pub security: bool,
    pub vault_backup: bool,
    pub repo_housekeeping: bool,
    pub dotfiles: bool,
    pub profiles: bool,
    pub validation: bool,
}

impl Default for PluginToggles {
    fn default() -> (r: Self)
        ensures
            r.theme_sync,
            r.fleet_health,
            r.security,
            r.vault_backup,
            r.repo_housekeeping,
            !r.dotfiles,
            !r.profiles,
            !r.validation,
    {
        PluginToggles {
            theme_sync: default_true(),
            fleet_health: default_true(),
            security: default_true(),
            vault_backup: default_true(),
            repo_housekeeping: default_true(),
            dotfiles: default_false(),
            profiles: default_false(),
            validation: default_false(),
        }
    }
}

pub fn default_cybercore_root() -> (s: String)
    ensures
        s@ == "~/.sysops/cybercore"@,
{
    "~/.sysops/cybercore".to_owned()
}

pub fn default_family() -> (s: String)
    ensures
        s@ == "omarchy-live"@,
{
    "omarchy-live".to_owned()
}

#[derive(Debug, Clone)]
pub struct ThemeSyncConfig {
    /// Where cybercore lives (its converter and `schema/themes/` target).
    pub cybercore_root: String,
    /// The family folder auto-synced themes are written into.
    pub family: String,
    /// Shell commands run after a successful regeneration.
    pub post_hooks: Vec<String>,
}

impl Default for ThemeSyncConfig {
    fn default() -> (r: Self)
        ensures
            r.cybercore_root@ == "~/.sysops/cybercore"@,
            r.family@ == "omarchy-live"@,
            r.post_hooks@.len() == 0,
    {
        ThemeSyncConfig {
            cybercore_root: default_cybercore_root(),
            family: default_family(),
            post_hooks: Vec::new(),
        }
    }
}

pub fn default_fleet_interval() -> (n: u64)
    ensures
        n == 60,
{
    60
}

/// Whether a systemd unit is queried with `systemctl --user` or plain
/// `systemctl`.
#[derive(Debug, Clone, Copy, PartialEq, Eq, Structural)]
pub enum UnitScope {
    System,
    User,
}

impl Default for UnitScope {
    fn default() -> (r: Self)
        ensures
            r == UnitScope::System,
    {
        UnitScope::System
    }
}

/// How a watched service's health is checked.
#[derive(Debug, Clone)]
pub enum HealthCheck {
    Tcp { addr: String },
    Http { url: String },
    SystemdUnit { unit: String, scope: UnitScope },
}

#[derive(Debug, Clone)]
pub struct WatchedService {
    pub name: String,
    pub check: HealthCheck,
    /// Shell command that starts the service when it is found down; absent
    /// means alert only.
    pub start_cmd: Option<String>,
}

#[derive(Debug, Clone)]
pub struct FleetHealthConfig {
    pub interval_secs: u64,
    pub services: Vec<WatchedService>,
    /// Minimum gap between two restart attempts for the same service.
    pub restart_backoff_secs: u64,
}

pub fn default_restart_backoff() -> (n: u64)
    ensures
        n == 300,
{
    300
}

impl Default for FleetHealthConfig {
    fn default() -> (r: Self)
        ensures
            r.interval_secs == 60,
            r.services@.len() == 0,
            r.restart_backoff_secs == 300,
    {
        FleetHealthConfig {
            interval_secs: default_fleet_interval(),
            services: Vec::new(),
            restart_backoff_secs: default_restart_backoff(),
        }
    }
}

pub fn default_security_interval() -> (n: u64)
    ensures
        n == 120,
{
    120
}

pub fn default_security_unit() -> (s: String)
    ensures
        s@ == "vortexwall"@,
{
    "vortexwall".to_owned()
}

#[derive(Debug, Clone)]
pub struct SecurityConfig {
    pub interval_secs: u64,
    /// The systemd unit to watch.
    pub unit: String,
}

impl Default for SecurityConfig {
    fn default() -> (r: Self)
        ensures
            r.interval_secs == 120,
            r.unit@ == "vortexwall"@,
    {
        SecurityConfig { interval_secs: default_security_interval(), unit: default_security_unit() }
    }
}

pub fn default_vault_interval() -> (n: u64)
    ensures
        n == 1800,
{
    1800
}

pub fn default_vault_path() -> (s: String)
    ensures
        s@ == "~/Vaults/darknotes"@,
{
    "~/Vaults/darknotes".to_owned()
}

#[derive(Debug, Clone)]
pub struct VaultBackupConfig {
    pub interval_secs: u64,
    pub path: String,
    /// Pushing is the one networked operation here, so it is opt-in.
    pub push: bool,
}

impl Default for VaultBackupConfig {
    fn default() -> (r: Self)
        ensures
            r.interval_secs == 1800,
            r.path@ == "~/Vaults/darknotes"@,
            !r.push,
    {
        VaultBackupConfig {
            interval_secs: default_vault_interval(),
            path: default_vault_path(),
            push: false,
        }
    }
}

pub fn default_repo_interval() -> (n: u64)
    ensures
        n == 3600,
{
    3600
}

pub fn default_cyberfleet_config() -> (s: String)
    ensures
        s@ == "~/.config/cyberfleet/config.json"@,
{
    "~/.config/cyberfleet/config.json".to_owned()
}

#[derive(Debug, Clone)]
pub struct RepoHousekeepingConfig {
    pub interval_secs: u64,
    /// cyberfleet's own config, whose repo roots take precedence.
    pub cyberfleet_config: String,
    /// Roots used only when the cyberfleet config supplies none.
    pub roots: Vec<String>,
    /// `owner/repo#123` entries polled for state changes.
    pub watch_prs: Vec<String>,
}

impl Default for RepoHousekeepingConfig {
    fn default() -> (r: Self)
        ensures
            r.interval_secs == 3600,
            r.cyberfleet_config@ == "~/.config/cyberfleet/config.json"@,
            r.roots@.len() == 0,
            r.watch_prs@.len() == 0,
    {
        RepoHousekeepingConfig {
            interval_secs: default_repo_interval(),
            cyberfleet_config: default_cyberfleet_config(),
            roots: Vec::new(),
            watch_prs: Vec::new(),
        }
    }
}

pub fn default_dotfiles_interval() -> (n: u64)
    ensures
        n == 300,
{
    300
}

pub fn default_public_git_dir() -> (s: String)
    ensures
        s@ == "~/.dotfiles"@,
{
    "~/.dotfiles".to_owned()
}

pub fn default_private_git_dir() -> (s: String)
    ensures
        s@ == "~/.dotfiles-private"@,
{
    "~/.dotfiles-private".to_owned()
}

pub fn default_public_manifest() -> (s: String)
    ensures
        s@ == "~/.config/apexdaemon/public-files.list"@,
{
    "~/.config/apexdaemon/public-files.list".to_owned()
}

pub fn default_private_manifest() -> (s: String)
    ensures
        s@ == "~/.config/apexdaemon/private-files.list"@,
{
    "~/.config/apexdaemon/private-files.list".to_owned()
}

pub fn default_snapshot_dir() -> (s: String)
    ensures
        s@ == "~/.local/state/apexdaemon/dotfiles-snapshots"@,
{
    "~/.local/state/apexdaemon/dotfiles-snapshots".to_owned()
}

pub fn default_max_snapshots() -> (n: usize)
    ensures
        n == 10,
{
    10
}

#[derive(Debug, Clone)]
pub struct DotfilesSecurityConfig {
    /// Scan every manifest-listed file for secret-like material.
    pub scan_secrets: bool,
    /// Tracked paths intentionally outside the manifest policy.
    pub exclude: Vec<String>,
}

impl Default for DotfilesSecurityConfig {
    fn default() -> (r: Self)
        ensures
            r.scan_secrets,
            r.exclude@.len() == 0,
    {
        DotfilesSecurityConfig { scan_secrets: default_true(), exclude: Vec::new() }
    }
}

#[derive(Debug, Clone)]
pub struct DotfilesConfig {
    pub interval_secs: u64,
    /// Reserved; the doctor never commits.
    pub auto_commit: bool,
    /// Reserved; the doctor never pushes.
    pub auto_push: bool,
    pub public_git_dir: String,
    pub private_git_dir: String,
    pub public_manifest: String,
    pub private_manifest: String,
    pub snapshot_dir: String,
    pub max_snapshots: usize,
    pub security: DotfilesSecurityConfig,
}

impl Default for DotfilesConfig {
    fn default() -> (r: Self)
        ensures
            r.interval_secs == 300,
            !r.auto_commit,
            !r.auto_push,
            r.public_git_dir@ == "~/.dotfiles"@,
            r.private_git_dir@ == "~/.dotfiles-private"@,
            r.public_manifest@ == "~/.config/apexdaemon/public-files.list"@,
            r.private_manifest@ == "~/.config/apexdaemon/private-files.list"@,
            r.snapshot_dir@ == "~/.local/state/apexdaemon/dotfiles-snapshots"@,
            r.max_snapshots == 10,
            r.security.scan_secrets,
            r.security.exclude@.len() == 0,
    {
        DotfilesConfig {
            interval_secs: default_dotfiles_interval(),
            auto_commit: false,
            auto_push: false,
            public_git_dir: default_public_git_dir(),
            private_git_dir: default_private_git_dir(),
            public_manifest: default_public_manifest(),
            private_manifest: default_private_manifest(),
            snapshot_dir: default_snapshot_dir(),
            max_snapshots: default_max_snapshots(),
            security: DotfilesSecurityConfig::default(),
        }
    }
}

pub fn default_profile_interval() -> (n: u64)
    ensures
        n == 300,
{
    300
}

pub fn default_active_profile() -> (s: String)
    ensures
        s@ == "darkbox"@,
{
    "darkbox".to_owned()
}

pub fn default_profile_directory() -> (s: String)
    ensures
        s@ == "~/.config/apexdaemon/profiles"@,
{
    "~/.config/apexdaemon/profiles".to_owned()
}

#[derive(Debug, Clone)]
pub struct ProfilesConfig {
    pub interval_secs: u64,
    pub active: String,
    pub directory: String,
    pub remind_on_mismatch: bool,
}

impl Default for ProfilesConfig {
    fn default() -> (r: Self)
        ensures
            r.interval_secs == 300,
            r.active@ == "darkbox"@,
            r.directory@ == "~/.config/apexdaemon/profiles"@,
            r.remind_on_mismatch,
    {
        ProfilesConfig {
            interval_secs: default_profile_interval(),
            active: default_active_profile(),
            directory: default_profile_directory(),
            remind_on_mismatch: default_true(),
        }
    }
}

pub fn default_validation_interval() -> (n: u64)
    ensures
        n == 3600,
{
    3600
}

pub fn default_validation_true() -> (b: bool)
    ensures
        b,
{
    true
}

#[derive(Debug, Clone)]
pub struct ValidationConfig {
    pub interval_secs: u64,
    pub check_shell: bool,
    pub check_toml: bool,
    pub check_lua: bool,
    pub check_svg: bool,
    pub check_readme_links: bool,
    pub watch_ci: bool,
    pub notify_success: bool,
    /// Optional workflow filename or name passed to `gh run list`.
    pub workflow: Option<String>,
    pub repositories: Vec<String>,
}

impl Default for ValidationConfig {
    fn default() -> (r: Self)
        ensures
            r.interval_secs == 3600,
            r.check_shell,
            r.check_toml,
            r.check_lua,
            r.check_svg,
            r.check_readme_links,
            !r.watch_ci,
            !r.notify_success,
            r.workflow is None,
            r.repositories@.len() == 0,
    {
        ValidationConfig {
            interval_secs: default_validation_interval(),
            check_shell: default_validation_true(),
            check_toml: default_validation_true(),
            check_lua: default_validation_true(),
            check_svg: default_validation_true(),
            check_readme_links: default_validation_true(),
            watch_ci: false,
            notify_success: false,
            workflow: None,
            repositories: Vec::new(),
        }
    }
}

pub fn default_true_notify() -> (b: bool)
    ensures
        b,
{
    true
}

#[derive(Debug, Clone)]
pub struct GeneralConfig {
    pub notify: bool,
}

impl Default for GeneralConfig {
    fn default() -> (r: Self)
        ensures
            r.notify,
    {
        GeneralConfig { notify: default_true_notify() }
    }
}

#[derive(Debug, Clone)]
pub struct AppConfig {
    pub general: GeneralConfig,
    pub plugins: PluginToggles,
    pub theme_sync: ThemeSyncConfig,
    pub fleet_health: FleetHealthConfig,
    pub security: SecurityConfig,
    pub vault_backup: VaultBackupConfig,
    pub repo_housekeeping: RepoHousekeepingConfig,
    pub dotfiles: DotfilesConfig,
    pub profiles: ProfilesConfig,
    pub validation: ValidationConfig,
}

/// What `AppConfig::default()` holds: every section at its own defaults.
pub open spec fn is_default_config(c: AppConfig) -> bool {
    &&& c.general.notify
    &&& c.plugins.theme_sync && c.plugins.fleet_health && c.plugins.security
    &&& c.plugins.vault_backup && c.plugins.repo_housekeeping
    &&& !c.plugins.dotfiles && !c.plugins.profiles && !c.plugins.validation
    &&& c.theme_sync.cybercore_root@ == "~/.sysops/cybercore"@
    &&& c.theme_sync.family@ == "omarchy-live"@
    &&& c.theme_sync.post_hooks@.len() == 0
    &&& c.fleet_health.interval_secs == 60 && c.fleet_health.services@.len() == 0
    &&& c.fleet_health.restart_backoff_secs == 300
    &&& c.security.interval_secs == 120 && c.security.unit@ == "vortexwall"@
    &&& c.vault_backup.interval_secs == 1800 && !c.vault_backup.push
    &&& c.vault_backup.path@ == "~/Vaults/darknotes"@
    &&& c.repo_housekeeping.interval_secs == 3600
    &&& c.repo_housekeeping.cyberfleet_config@ == "~/.config/cyberfleet/config.json"@
    &&& c.repo_housekeeping.roots@.len() == 0 && c.repo_housekeeping.watch_prs@.len() == 0
    &&& c.dotfiles.interval_secs == 300 && !c.dotfiles.auto_commit && !c.dotfiles.auto_push
    &&& c.dotfiles.public_git_dir@ == "~/.dotfiles"@
    &&& c.dotfiles.private_git_dir@ == "~/.dotfiles-private"@
    &&& c.dotfiles.public_manifest@ == "~/.config/apexdaemon/public-files.list"@
    &&& c.dotfiles.private_manifest@ == "~/.config/apexdaemon/private-files.list"@
    &&& c.dotfiles.snapshot_dir@ == "~/.local/state/apexdaemon/dotfiles-snapshots"@
    &&& c.dotfiles.max_snapshots == 10
    &&& c.dotfiles.security.scan_secrets && c.dotfiles.security.exclude@.len() == 0
    &&& c.profiles.interval_secs == 300 && c.profiles.active@ == "darkbox"@
    &&& c.profiles.directory@ == "~/.config/apexdaemon/profiles"@
    &&& c.profiles.remind_on_mismatch
    &&& c.validation.interval_secs == 3600
    &&& c.validation.check_shell && c.validation.check_toml && c.validation.check_lua
    &&& c.validation.check_svg && c.validation.check_readme_links
    &&& !c.validation.watch_ci && !c.validation.notify_success
    &&& c.validation.workflow is None && c.validation.repositories@.len() == 0
}

impl Default for AppConfig {
    fn default() -> (r: Self)
        ensures
            is_default_config(r),
    {
        AppConfig {
            general: GeneralConfig::default(),
            plugins: PluginToggles::default(),
            theme_sync: ThemeSyncConfig::default(),
            fleet_health: FleetHealthConfig::default(),
            security: SecurityConfig::default(),
            vault_backup: VaultBackupConfig::default(),
            repo_housekeeping: RepoHousekeepingConfig::default(),
            dotfiles: DotfilesConfig::default(),
            profiles: ProfilesConfig::default(),
            validation: ValidationConfig::default(),
        }
    }
}

} // verus!
