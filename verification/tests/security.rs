use apexdaemon::config::AppConfig;
use apexdaemon::plugins::security::{
    is_ban_line, journal_args, journal_exit_line, spawn_failure_line, unit_key,
    unit_status_args, unit_transition, SecurityPlugin,
};

#[test]
fn only_status_changes_are_reported() {
    assert_eq!(
        unit_transition(None, false, "vortexwall").as_deref(),
        Some("vortexwall is not active — auth-failure banning is not running")
    );
    assert_eq!(
        unit_transition(Some(true), false, "vortexwall").as_deref(),
        Some("vortexwall is not active — auth-failure banning is not running")
    );
    assert_eq!(unit_transition(Some(false), false, "vortexwall"), None);
    assert_eq!(
        unit_transition(Some(false), true, "vortexwall").as_deref(),
        Some("vortexwall is active again")
    );
    assert_eq!(unit_transition(Some(true), true, "vortexwall"), None);
    assert_eq!(unit_transition(None, true, "vortexwall"), None);
}

#[test]
fn security_commands_and_lines() {
    assert_eq!(unit_key("v"), "security_unit_active_v");
    assert_eq!(unit_status_args("v"), vec!["is-active", "--quiet", "v"]);
    assert_eq!(journal_args("v"), vec!["-f", "-u", "v", "-o", "cat", "--since", "now"]);
    assert!(is_ban_line("x [BANNED] 1.2.3.4"));
    assert!(!is_ban_line("x banned"));
    assert_eq!(spawn_failure_line("v", "e"), "[security] failed to spawn journalctl for v: e");
    assert_eq!(journal_exit_line("v"), "[security] journalctl for v exited — restarting in 10s");
    let mut cfg = AppConfig::default();
    cfg.security.interval_secs = 1;
    assert_eq!(SecurityPlugin.period_secs(&cfg), 10);
}
