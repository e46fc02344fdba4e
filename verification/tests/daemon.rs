use apexdaemon::config::PluginToggles;
use apexdaemon::daemon::{
    admin_action, admin_command_args, admin_log_line, enabled_plugins, initial_backoff_secs,
    list_line, next_backoff_secs, plugin_name, registry, startup_line, supervisor_line,
    tick_error_line, PluginKind,
};

#[test]
fn admin_needs_exactly_one_action() {
    assert_eq!(admin_action(true, false, false, false), Ok("start"));
    assert_eq!(admin_action(false, false, false, true), Ok("status"));
    assert_eq!(
        admin_action(false, false, false, false),
        Err("--admin needs exactly one of --start, --stop, --restart, --status")
    );
    assert!(admin_action(true, true, false, false).is_err());
    assert_eq!(admin_command_args("stop"), vec!["--user", "stop", "apexdaemon"]);
    assert_eq!(admin_log_line("stop"), "[admin] running: systemctl --user stop apexdaemon");
}

#[test]
fn enabled_plugins_keep_registration_order() {
    let mut t = PluginToggles::default();
    t.fleet_health = false;
    let names: Vec<&str> = enabled_plugins(&registry(&t)).into_iter().map(plugin_name).collect();
    assert_eq!(names, vec!["theme-sync", "security", "vault-backup", "repo-housekeeping"]);
    assert_eq!(plugin_name(PluginKind::FleetHealth), "fleet-health");
}

#[test]
fn lines_printed_by_the_daemon() {
    assert_eq!(list_line("security", true), format!("{:<20} enabled", "security"));
    assert_eq!(list_line("a-very-long-plugin-name", false), "a-very-long-plugin-name disabled");
    assert_eq!(
        startup_line(&vec!["a".to_string(), "b".to_string()]),
        "[ApexDaemon] starting with plugins: a, b"
    );
    assert_eq!(
        supervisor_line("x", Some("boom"), 10),
        "[x] failed: boom — restarting in 10s"
    );
    assert_eq!(
        supervisor_line("x", None, 5),
        "[x] exited cleanly (unexpected) — restarting in 5s"
    );
    assert_eq!(tick_error_line("x", "e"), "[x] tick error: e");
}

#[test]
fn supervisor_backoff_doubles_up_to_two_minutes() {
    let mut s = initial_backoff_secs();
    let mut seen = vec![s];
    for _ in 0..6 {
        s = next_backoff_secs(s);
        seen.push(s);
    }
    assert_eq!(seen, vec![5, 10, 20, 40, 80, 120, 120]);
}
