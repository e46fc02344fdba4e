use apexdaemon::config::{HealthCheck, WatchedService};
use apexdaemon::daemon::{enabled_plugins, plugin_name, registry};
use apexdaemon::plugins::fleet_health::{probe_for, Probe};
use apexdaemon::config::{
    default_max_snapshots, default_restart_backoff, AppConfig, DotfilesConfig, FleetHealthConfig,
    PluginToggles, UnitScope,
};

#[test]
fn plain_default_matches_empty_toml_for_plugin_toggles() {
    let plain_default = AppConfig::default();
    assert!(plain_default.plugins.theme_sync);
    assert!(plain_default.plugins.fleet_health);
    assert!(plain_default.plugins.security);
    assert!(plain_default.plugins.vault_backup);
    assert!(plain_default.plugins.repo_housekeeping);
    assert!(!plain_default.plugins.dotfiles);
    assert!(!plain_default.plugins.profiles);
    assert!(!plain_default.plugins.validation);
    let toggles = PluginToggles::default();
    assert_eq!(toggles.theme_sync, plain_default.plugins.theme_sync);
    assert_eq!(toggles.security, plain_default.plugins.security);
}

#[test]
fn defaults_apply_to_empty_config() {
    let cfg = AppConfig::default();
    assert!(cfg.plugins.theme_sync);
    assert!(cfg.plugins.fleet_health);
    assert_eq!(cfg.fleet_health.interval_secs, 60);
    assert_eq!(cfg.security.unit, "vortexwall");
    assert!(!cfg.vault_backup.push);
    assert_eq!(cfg.vault_backup.path, "~/Vaults/darknotes");
    assert!(!cfg.plugins.validation);
    assert_eq!(cfg.validation.interval_secs, 3600);
}

#[test]
fn section_defaults() {
    let f = FleetHealthConfig::default();
    assert!(f.services.is_empty());
    assert_eq!(f.restart_backoff_secs, default_restart_backoff());
    assert_eq!(default_restart_backoff(), 300);
    let d = DotfilesConfig::default();
    assert_eq!(d.max_snapshots, default_max_snapshots());
    assert_eq!(d.max_snapshots, 10);
    assert!(d.security.scan_secrets);
    assert!(!d.auto_commit && !d.auto_push);
    assert!(UnitScope::default() == UnitScope::System);
    let cfg = AppConfig::default();
    assert!(cfg.general.notify);
    assert_eq!(cfg.theme_sync.family, "omarchy-live");
    assert_eq!(cfg.profiles.active, "darkbox");
}

#[test]
fn disabling_a_plugin_leaves_the_others_running() {
    let mut cfg = AppConfig::default();
    cfg.plugins.security = false;
    let names: Vec<&str> =
        enabled_plugins(&registry(&cfg.plugins)).into_iter().map(plugin_name).collect();
    assert!(!names.contains(&"security"));
    assert!(names.contains(&"theme-sync"));
    assert_eq!(cfg.security.unit, "vortexwall");
}

#[test]
fn each_check_kind_has_its_probe() {
    let tcp = WatchedService {
        name: "cyberdeck".to_string(),
        check: HealthCheck::Tcp { addr: "127.0.0.1:8080".to_string() },
        start_cmd: Some("cyberdeck".to_string()),
    };
    assert!(matches!(probe_for(&tcp.check), Probe::Tcp(a) if a == "127.0.0.1:8080"));
    let http = HealthCheck::Http { url: "http://127.0.0.1:8765/healthz".to_string() };
    assert!(matches!(probe_for(&http), Probe::Http(args) if args.last().unwrap() == "http://127.0.0.1:8765/healthz"));
    let system = HealthCheck::SystemdUnit { unit: "vortexwall".to_string(), scope: UnitScope::default() };
    assert!(matches!(probe_for(&system), Probe::Systemd(args) if args == vec!["is-active", "--quiet", "vortexwall"]));
    let user = HealthCheck::SystemdUnit { unit: "cyberdeck".to_string(), scope: UnitScope::User };
    assert!(matches!(probe_for(&user), Probe::Systemd(args) if args[0] == "--user"));
}
