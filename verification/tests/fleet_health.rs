use apexdaemon::config::{HealthCheck, UnitScope, WatchedService};
use apexdaemon::plugins::fleet_health::{
    backoff_key, probe_for, restart_plan, restart_plan_now, should_attempt_restart, start_outcome,
    Probe, RestartPlan,
};

#[test]
fn no_prior_attempt_always_allows_a_restart() {
    assert!(should_attempt_restart(None, 1_000, 300));
}

#[test]
fn within_the_backoff_window_is_refused() {
    assert!(!should_attempt_restart(Some(1_000), 1_100, 300));
}

#[test]
fn exactly_at_the_backoff_boundary_is_allowed() {
    assert!(should_attempt_restart(Some(1_000), 1_300, 300));
}

#[test]
fn well_past_the_backoff_window_is_allowed() {
    assert!(should_attempt_restart(Some(1_000), 10_000, 300));
}

#[test]
fn backoff_arithmetic_wraps_like_the_release_build() {
    // now - last overflows i64 and wraps to a negative elapsed time.
    assert!(!should_attempt_restart(Some(i64::MIN), 1, 0));
    // A backoff of u64::MAX is -1 as i64: one second back in time is enough.
    assert!(should_attempt_restart(Some(10), 9, u64::MAX));
    assert!(!should_attempt_restart(Some(10), 5, u64::MAX));
}

fn service(start_cmd: Option<&str>) -> WatchedService {
    WatchedService {
        name: "cyberdeck".to_string(),
        check: HealthCheck::Tcp { addr: "127.0.0.1:8080".to_string() },
        start_cmd: start_cmd.map(|s| s.to_string()),
    }
}

#[test]
fn restart_plans_follow_the_service_config() {
    assert!(matches!(restart_plan(&service(None), true, None, 0, 300, false), RestartPlan::Healthy));
    match restart_plan(&service(None), false, None, 0, 300, false) {
        RestartPlan::AlertOnly { body } => assert_eq!(
            body,
            "cyberdeck failed its health check (no start_cmd configured — alert only)"
        ),
        _ => panic!("expected an alert"),
    }
    assert!(matches!(
        restart_plan(&service(Some("cyberdeck")), false, Some(100), 200, 300, false),
        RestartPlan::BackingOff
    ));
    match restart_plan(&service(Some("cyberdeck")), false, None, 200, 300, true) {
        RestartPlan::DryRun { line } => {
            assert_eq!(line, "[fleet-health] (dry-run) would run start_cmd for cyberdeck: cyberdeck")
        }
        _ => panic!("expected a dry run"),
    }
    match restart_plan(&service(Some("cyberdeck --serve")), false, Some(0), 400, 300, false) {
        RestartPlan::Start { command, line, now } => {
            assert_eq!(command, "cyberdeck --serve");
            assert_eq!(line, "[fleet-health] starting cyberdeck: cyberdeck --serve");
            assert_eq!(now, 400);
        }
        _ => panic!("expected a start"),
    }
}

#[test]
fn a_clock_that_went_back_plans_no_restart() {
    assert!(matches!(
        restart_plan(&service(Some("cyberdeck")), false, Some(5_000), 4_000, 300, false),
        RestartPlan::BackingOff
    ));
}

#[test]
fn the_current_time_plan_starts_a_service_with_no_prior_attempt() {
    let (plan, now) = restart_plan_now(&service(Some("cyberdeck")), false, None, 300, false).unwrap();
    let now = now.unwrap();
    assert!(now > 1_600_000_000);
    match plan {
        RestartPlan::Start { command, now: t, .. } => {
            assert_eq!(command, "cyberdeck");
            assert_eq!(t, now);
        }
        _ => panic!("expected a start"),
    }
}

#[test]
fn restart_bookkeeping_and_outcomes() {
    assert_eq!(backoff_key("cyberdeck"), "fleet_health_last_restart_cyberdeck");
    assert_eq!(
        start_outcome("cyberdeck", None),
        ("ApexDaemon: service restarted".to_string(), "started cyberdeck".to_string())
    );
    assert_eq!(
        start_outcome("cyberdeck", Some("not found")),
        ("ApexDaemon: restart failed".to_string(), "cyberdeck start_cmd failed: not found".to_string())
    );
}

#[test]
fn probes_match_the_check_kind() {
    match probe_for(&HealthCheck::SystemdUnit { unit: "vortexwall".to_string(), scope: UnitScope::User }) {
        Probe::Systemd(args) => assert_eq!(args, vec!["--user", "is-active", "--quiet", "vortexwall"]),
        _ => panic!("expected systemd"),
    }
    match probe_for(&HealthCheck::SystemdUnit { unit: "v".to_string(), scope: UnitScope::System }) {
        Probe::Systemd(args) => assert_eq!(args, vec!["is-active", "--quiet", "v"]),
        _ => panic!("expected systemd"),
    }
    match probe_for(&HealthCheck::Http { url: "http://x".to_string() }) {
        Probe::Http(args) => assert_eq!(args, vec!["-fsS", "--max-time", "3", "-o", "/dev/null", "http://x"]),
        _ => panic!("expected http"),
    }
}

#[test]
fn the_clock_is_read_only_for_a_down_service_with_a_start_command() {
    let (plan, now) = restart_plan_now(&service(Some("cyberdeck")), true, None, 300, false).unwrap();
    assert!(matches!(plan, RestartPlan::Healthy) && now.is_none());
    let (plan, now) = restart_plan_now(&service(None), false, None, 300, false).unwrap();
    assert!(matches!(plan, RestartPlan::AlertOnly { .. }) && now.is_none());
}

#[test]
fn the_clock_reads_seconds_and_nanoseconds_since_the_epoch() {
    let (secs, nanos) = apexdaemon::clock::epoch_reading().unwrap();
    assert!(secs > 1_600_000_000);
    assert!(nanos < 1_000_000_000);
}
