use apexdaemon::plugins::repo_housekeeping::{
    attention_line, attention_summary, parse_watch_spec, repo_sources, reported_state,
    skip_dir_name, watch_key, watch_query_args, watch_update, walk_step, CyberfleetConfig, CyberfleetSource, WalkStep,
};

#[test]
fn parses_owner_repo_hash_number() {
    assert_eq!(
        parse_watch_spec("darkstardevx/OmNote#4"),
        Some(("darkstardevx/OmNote".to_string(), "4".to_string()))
    );
}

#[test]
fn rejects_spec_without_hash() {
    assert_eq!(parse_watch_spec("darkstardevx/OmNote"), None);
}

#[test]
fn watch_spec_splits_at_the_first_hash() {
    assert_eq!(parse_watch_spec("a#b#c"), Some(("a".to_string(), "b#c".to_string())));
    assert_eq!(watch_key("o/r", "4"), "repo_watch_o/r_4");
    assert_eq!(watch_query_args("o/r", "4"), vec!["api", "repos/o/r/issues/4", "--jq", ".state"]);
}

#[test]
fn watch_updates_announce_changes_after_the_first_sighting() {
    let first = watch_update(None, "open", "o/r#4");
    assert!(first.store && first.notify.is_none());
    let changed = watch_update(Some("open"), "closed", "o/r#4");
    assert!(changed.store);
    assert_eq!(changed.notify.as_deref(), Some("o/r#4 is now closed"));
    let same = watch_update(Some("open"), "open", "o/r#4");
    assert!(!same.store && same.notify.is_none());
    assert_eq!(reported_state(" open\n").as_deref(), Some("open"));
    assert_eq!(reported_state("\n"), None);
}

#[test]
fn repo_sources_prefer_cyberfleet_roots() {
    let fallback = vec!["~/code".to_string()];
    let from_cf = repo_sources(
        CyberfleetSource::Parsed(CyberfleetConfig {
            roots: vec!["~/src".to_string()],
            ignore: vec!["vendor".to_string()],
            max_depth: 2,
        }),
        &fallback,
    );
    assert!(from_cf.from_cyberfleet);
    assert_eq!(from_cf.roots, vec!["~/src".to_string()]);
    assert_eq!(from_cf.ignore, vec!["vendor".to_string()]);
    assert_eq!(from_cf.max_depth, 2);
    // An existing cyberfleet config is used even when it lists no roots.
    let empty_cf = repo_sources(
        CyberfleetSource::Parsed(CyberfleetConfig { roots: vec![], ignore: vec![], max_depth: 9 }),
        &fallback,
    );
    assert!(empty_cf.from_cyberfleet);
    assert!(empty_cf.roots.is_empty());
    assert_eq!(empty_cf.max_depth, 9);
    // An unreadable one gives no roots.
    let broken = repo_sources(CyberfleetSource::Unreadable, &fallback);
    assert!(!broken.from_cyberfleet);
    assert!(broken.roots.is_empty());
    // Only a missing one falls back to this config's roots.
    let absent = repo_sources(CyberfleetSource::Absent, &fallback);
    assert!(!absent.from_cyberfleet);
    assert_eq!(absent.roots, fallback);
    assert_eq!(absent.max_depth, 4);
    assert!(absent.ignore.is_empty());
}

#[test]
fn walk_stops_at_repositories_and_at_depth_zero() {
    assert!(matches!(walk_step(true, 3), WalkStep::Repository));
    assert!(matches!(walk_step(true, 0), WalkStep::Repository));
    assert!(matches!(walk_step(false, 0), WalkStep::Stop));
    assert!(matches!(walk_step(false, 4), WalkStep::Descend(3)));
}

#[test]
fn walk_skips_hidden_and_ignored_directories() {
    let ignore = vec!["node_modules".to_string()];
    assert!(skip_dir_name(".cache", &ignore));
    assert!(skip_dir_name("node_modules", &ignore));
    assert!(!skip_dir_name("proj", &ignore));
}

#[test]
fn attention_lines_leave_out_zero_counts() {
    assert_eq!(attention_line("a", 0, 0, 0), None);
    assert_eq!(attention_line("a", 2, 0, 1).as_deref(), Some("a: 2 dirty, 1 behind"));
    let (head, body) = attention_summary(&vec!["a: 1 ahead".to_string(), "b: 3 dirty".to_string()]);
    assert_eq!(head, "[repo-housekeeping] 2 repo(s) need attention:");
    assert_eq!(body, "2 repo(s): a: 1 ahead; b: 3 dirty");
}
