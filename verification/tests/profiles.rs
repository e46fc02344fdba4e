use apexdaemon::config::{DotfilesConfig, ProfilesConfig};
use apexdaemon::plugins::profiles::{
    choose_hostname, is_safe_profile_name, missing_profile_report, profile_path, profile_report,
    report_change, ProfileFile,
};

#[test]
fn profile_names_cannot_escape_profile_directory() {
    assert!(is_safe_profile_name("darkbox"));
    assert!(!is_safe_profile_name("../private"));
    assert!(!is_safe_profile_name("darkbox/other"));
    assert!(!is_safe_profile_name(""));
}

#[test]
fn profile_path_lives_in_the_profile_directory() {
    let cfg = ProfilesConfig::default();
    assert_eq!(
        profile_path(&cfg, Some("/home/u")).unwrap(),
        "/home/u/.config/apexdaemon/profiles/darkbox.toml"
    );
    let mut bad = ProfilesConfig::default();
    bad.active = "../x".to_string();
    assert_eq!(
        profile_path(&bad, Some("/home/u")).unwrap_err(),
        "profile: invalid active profile name `../x`"
    );
    assert_eq!(missing_profile_report("/p.toml"), "profile: active profile missing (/p.toml)");
}

#[test]
fn profile_report_lists_every_mismatch() {
    let cfg = ProfilesConfig::default();
    let dotfiles = DotfilesConfig::default();
    let healthy = ProfileFile {
        name: Some("darkbox".to_string()),
        hostname: Some("box".to_string()),
        public_manifest: Some("~/.config/apexdaemon/public-files.list".to_string()),
        private_manifest: None,
    };
    assert_eq!(profile_report(&cfg, &dotfiles, &healthy, "box"), "profile: healthy");
    let off = ProfileFile {
        name: Some("laptop".to_string()),
        hostname: Some("laptop".to_string()),
        public_manifest: Some("other".to_string()),
        private_manifest: Some("other".to_string()),
    };
    assert_eq!(
        profile_report(&cfg, &dotfiles, &off, "box"),
        "profile `darkbox`: name is `laptop`, expected `darkbox`; hostname is `box`, expected `laptop`; \
public manifest does not match active daemon config; private manifest does not match active daemon config"
    );
}

#[test]
fn hostname_prefers_etc_hostname() {
    assert_eq!(choose_hostname(Some(" box\n"), Some("env")), "box");
    assert_eq!(choose_hostname(Some("  \n"), Some("env")), "env");
    assert_eq!(choose_hostname(None, None), "unknown");
}

#[test]
fn profile_reminders_follow_the_switch() {
    let restored = report_change(Some("profile `x`: bad"), "profile: healthy", true, false);
    assert_eq!(restored.notify.as_deref(), Some("ApexDaemon: profile restored"));
    let quiet = report_change(None, "profile `x`: bad", false, false);
    assert!(quiet.notify.is_none() && quiet.store);
    let same = report_change(Some("a"), "a", true, false);
    assert!(same.notify.is_none() && !same.store);
}
