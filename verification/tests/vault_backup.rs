use apexdaemon::config::AppConfig;
use apexdaemon::plugins::vault_backup::{
    after_status, backup_step, changed_paths, commit_message_at, commit_message_now, committed,
    git_step_failed, is_dirty, not_a_repo_message, push_failed_line, BackupAction, BackupEvent,
    BackupState, StatusOutcome, VaultBackupPlugin,
};

#[test]
fn empty_porcelain_output_is_clean() {
    assert!(!is_dirty(""));
    assert!(!is_dirty("\n"));
}

#[test]
fn nonempty_porcelain_output_is_dirty() {
    assert!(is_dirty(" M src/main.rs\n"));
    assert!(is_dirty("?? new-note.md\n"));
}

#[test]
fn status_outcome_counts_changed_paths() {
    assert_eq!(changed_paths(" M a\n?? b\n"), 2);
    assert!(matches!(after_status("  \n", "/v", false), StatusOutcome::Clean));
    assert!(matches!(after_status(" M a\n?? b\n", "/v", false), StatusOutcome::Commit { count: 2 }));
    match after_status(" M a\n", "/v", true) {
        StatusOutcome::DryRun { line } => {
            assert_eq!(line, "[vault-backup] (dry-run) would commit 1 changed path(s) in /v")
        }
        _ => panic!("expected a dry-run line"),
    }
}

#[test]
fn vault_messages() {
    let message = commit_message_now().unwrap();
    assert!(message.starts_with("auto: backup "));
    assert!(message.ends_with(" UTC"));
    assert_eq!(message.len(), "auto: backup ".len() + 23);
    assert_eq!(not_a_repo_message("/v"), "/v is not a git repo");
    assert_eq!(git_step_failed("add", "oops"), "git add failed: oops");
    assert_eq!(
        committed(3, "auto: backup x"),
        (
            "[vault-backup] committed 3 changed path(s): auto: backup x".to_string(),
            "3 path(s) committed".to_string()
        )
    );
    assert_eq!(
        push_failed_line("e"),
        "[vault-backup] push failed (commit is still safe locally): e"
    );
}

#[test]
fn vault_period_has_a_floor() {
    let mut cfg = AppConfig::default();
    cfg.vault_backup.interval_secs = 5;
    assert_eq!(VaultBackupPlugin.period_secs(&cfg), 60);
    cfg.vault_backup.interval_secs = 600;
    assert_eq!(VaultBackupPlugin.period_secs(&cfg), 600);
    assert_eq!(VaultBackupPlugin.name(), "vault-backup");
}

#[test]
fn commit_messages_render_the_clock_reading() {
    assert_eq!(
        commit_message_at(1_431_648_000, 0).as_deref(),
        Some("auto: backup 2015-05-15 00:00:00 UTC")
    );
    assert_eq!(
        commit_message_at(1_700_000_000, 123).as_deref(),
        Some("auto: backup 2023-11-14 22:13:20 UTC")
    );
    assert_eq!(commit_message_at(i64::MAX, 0), None);
}

#[test]
fn a_backup_run_commits_and_pushes_when_configured() {
    let s = backup_step(BackupState::Start, BackupEvent::RepoChecked { is_repo: true }, "/v", false, true);
    assert!(matches!(s.action, BackupAction::RunStatus));
    assert!(s.print.is_none() && s.eprint.is_none() && s.notify.is_none());
    let s = backup_step(
        s.state,
        BackupEvent::StatusRan { success: true, stdout: " M a.md\n?? b.md\n".to_string(), stderr: String::new() },
        "/v",
        false,
        true,
    );
    assert!(matches!(s.state, BackupState::Adding { count: 2 }));
    assert!(matches!(s.action, BackupAction::RunAdd));
    let s = backup_step(s.state, BackupEvent::Added { message: "auto: backup X".to_string() }, "/v", false, true);
    match &s.action {
        BackupAction::RunCommit { message } => assert_eq!(message, "auto: backup X"),
        _ => panic!("expected a commit"),
    }
    let s = backup_step(s.state, BackupEvent::CommitRan { success: true, stderr: String::new() }, "/v", false, true);
    assert_eq!(s.print.as_deref(), Some("[vault-backup] committed 2 changed path(s): auto: backup X"));
    assert_eq!(
        s.notify,
        Some(("ApexDaemon: vault backed up".to_string(), "2 path(s) committed".to_string()))
    );
    assert!(matches!(s.action, BackupAction::RunPush));
    let failed = backup_step(s.state, BackupEvent::PushRan { success: false, stderr: "no agent".to_string() }, "/v", false, true);
    assert!(matches!(failed.action, BackupAction::Finish));
    assert_eq!(
        failed.eprint.as_deref(),
        Some("[vault-backup] push failed (commit is still safe locally): no agent")
    );
    assert_eq!(failed.notify.map(|n| n.0), Some("ApexDaemon: vault push failed".to_string()));
    let pushed = backup_step(BackupState::Pushing, BackupEvent::PushRan { success: true, stderr: String::new() }, "/v", false, true);
    assert_eq!(pushed.print.as_deref(), Some("[vault-backup] pushed"));
    assert!(matches!(pushed.action, BackupAction::Finish));
}

#[test]
fn a_backup_run_stops_where_it_should() {
    let s = backup_step(BackupState::Start, BackupEvent::RepoChecked { is_repo: false }, "/v", false, false);
    match s.action {
        BackupAction::Fail { error } => assert_eq!(error, "/v is not a git repo"),
        _ => panic!("expected a failure"),
    }
    let s = backup_step(BackupState::Status, BackupEvent::StatusRan { success: false, stdout: String::new(), stderr: "boom".to_string() }, "/v", false, false);
    match s.action {
        BackupAction::Fail { error } => assert_eq!(error, "git status failed: boom"),
        _ => panic!("expected a failure"),
    }
    let s = backup_step(BackupState::Status, BackupEvent::StatusRan { success: true, stdout: "\n".to_string(), stderr: String::new() }, "/v", false, false);
    assert!(matches!(s.action, BackupAction::Finish) && s.print.is_none());
    let s = backup_step(BackupState::Status, BackupEvent::StatusRan { success: true, stdout: " M a\n".to_string(), stderr: String::new() }, "/v", true, false);
    assert!(matches!(s.action, BackupAction::Finish));
    assert_eq!(s.print.as_deref(), Some("[vault-backup] (dry-run) would commit 1 changed path(s) in /v"));
    let s = backup_step(
        BackupState::Committing { count: 1, message: "m".to_string() },
        BackupEvent::CommitRan { success: true, stderr: String::new() },
        "/v",
        false,
        false,
    );
    assert!(matches!(s.action, BackupAction::Finish) && matches!(s.state, BackupState::Done));
    let s = backup_step(
        BackupState::Committing { count: 1, message: "m".to_string() },
        BackupEvent::CommitRan { success: false, stderr: "nothing".to_string() },
        "/v",
        false,
        false,
    );
    match s.action {
        BackupAction::Fail { error } => assert_eq!(error, "git commit failed: nothing"),
        _ => panic!("expected a failure"),
    }
}
