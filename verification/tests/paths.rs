use apexdaemon::paths::component_texts;
use apexdaemon::paths::file_name_and_extension;
use apexdaemon::paths::home_or_current;
use apexdaemon::paths::{
    config_path_candidates, display_path, expand_home, is_safe_name, join_path,
};

#[test]
fn expand_home_handles_tilde_and_plain_paths() {
    assert_eq!(
        expand_home("~/Vaults/darknotes", Some("/home/testuser")),
        "/home/testuser/Vaults/darknotes"
    );
    assert_eq!(expand_home("/etc/passwd", Some("/home/testuser")), "/etc/passwd");
    assert_eq!(expand_home("~/x", None), "~/x");
}

#[test]
fn joining_follows_path_join() {
    assert_eq!(join_path("/a", "b"), "/a/b");
    assert_eq!(join_path("/a/", "b"), "/a/b");
    assert_eq!(join_path("/a", "/b"), "/b");
    assert_eq!(join_path("", "b"), "b");
}

#[test]
fn config_candidates_in_order() {
    assert_eq!(
        config_path_candidates(Some("/x"), Some("/h")),
        vec![
            "/x/apexdaemon/config.toml".to_string(),
            "/h/.config/apexdaemon/config.toml".to_string(),
            "config.toml".to_string(),
        ]
    );
    assert_eq!(config_path_candidates(None, None), vec!["config.toml".to_string()]);
}

#[test]
fn names_and_display_paths() {
    assert!(is_safe_name("darkbox"));
    assert!(!is_safe_name(".."));
    assert!(!is_safe_name("a/b"));
    assert!(!is_safe_name(""));
    assert_eq!(display_path("/home/u/.bashrc", "/home/u"), "~/.bashrc");
    assert_eq!(display_path("/home/u//a/./b", "/home/u/"), "~/a/./b");
    assert_eq!(display_path("/home/./u/a", "/home/u"), "~/a");
    assert_eq!(display_path("/etc/hosts", "/home/u"), "/etc/hosts");
    assert_eq!(display_path("/home/user2/x", "/home/u"), "/home/user2/x");
}

#[test]
fn home_falls_back_to_the_current_directory() {
    assert_eq!(home_or_current(Some("/h")), "/h");
    assert_eq!(home_or_current(None), ".");
}

#[test]
fn file_names_and_extensions_follow_path_rules() {
    let parts = |p: &str| {
        let (n, e) = file_name_and_extension(p);
        (n, e)
    };
    assert_eq!(parts("/h/.bashrc"), (".bashrc".to_string(), String::new()));
    assert_eq!(parts("/h/a.tar.gz"), ("a.tar.gz".to_string(), "gz".to_string()));
    assert_eq!(parts("/h/x/"), ("x".to_string(), String::new()));
    assert_eq!(parts("/h/a/.."), (String::new(), String::new()));
    assert_eq!(parts("/"), (String::new(), String::new()));
    assert_eq!(parts("."), (String::new(), String::new()));
    assert_eq!(parts("file."), ("file.".to_string(), String::new()));
    assert_eq!(parts("..bashrc"), ("..bashrc".to_string(), "bashrc".to_string()));
    assert_eq!(parts("README.md"), ("README.md".to_string(), "md".to_string()));
}

#[test]
fn safe_joins_stay_under_the_base() {
    assert_eq!(
        component_texts(&join_path("/home/u/", "a/./b")),
        vec!["/", "home", "u", "a", "b"]
    );
    assert_eq!(component_texts(&join_path("/home/u", ".config//x")), vec![
        "/", "home", "u", ".config", "x"
    ]);
    assert_eq!(component_texts("./a/../b"), vec![".", "a", "..", "b"]);
}
