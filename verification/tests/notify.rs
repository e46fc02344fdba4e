use apexdaemon::notify::Notifier;

#[test]
fn disabled_notifier_only_logs() {
    let n = Notifier::new(false);
    assert!(!n.enabled());
    let d = n.delivery("S", "B");
    assert_eq!(d.log_line, "[ApexDaemon] S: B");
    assert!(d.desktop_args.is_none());
}

#[test]
fn enabled_notifier_runs_notify_send() {
    let n = Notifier::new(true);
    let d = n.delivery("S", "B");
    assert_eq!(d.log_line, "[ApexDaemon] S: B");
    assert_eq!(
        d.desktop_args,
        Some(vec!["--app-name=ApexDaemon".to_string(), "S".to_string(), "B".to_string()])
    );
}
