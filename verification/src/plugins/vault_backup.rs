//! Auto-commits, and optionally pushes, the notes vault on an interval.
//! The binary runs git; the decisions and messages are here.

use vstd::prelude::*;
use crate::config::AppConfig;
use crate::text::{concat, decimal, is_blank, lines, lines_spec, push_str, trim_spec, usize_to_string};

verus! {

pub struct VaultBackupPlugin;

impl VaultBackupPlugin {
    pub fn name(&self) -> (r: &'static str)
        ensures
            r@ == "vault-backup"@,
    {
        "vault-backup"
    }

    /// Seconds between two backups: the configured interval, at least 60.
    pub fn period_secs(&self, cfg: &AppConfig) -> (r: u64)
        ensures
            r == if cfg.vault_backup.interval_secs < 60 {
                60
            } else {
                cfg.vault_backup.interval_secs
            },
    {
        if cfg.vault_backup.interval_secs < 60 {
            60
        } else {
            cfg.vault_backup.interval_secs
        }
    }
}

/// `git status --porcelain` prints one line per changed path and nothing
/// when the tree is clean: the tree is dirty when the output has any
/// non-whitespace character.
pub fn is_dirty(porcelain_output: &str) -> (b: bool)
    ensures
        b == (trim_spec(porcelain_output@).len() > 0),
{
    !is_blank(porcelain_output)
}

/// How many paths `git status --porcelain` reported (its number of lines).
pub fn changed_paths(porcelain_output: &str) -> (n: usize)
    ensures
        n == lines_spec(porcelain_output@).len(),
{
    let ls = lines(porcelain_output);
    proof {
        assert(crate::text::views(ls@).len() == ls@.len());
    }
    ls.len()
}

/// What follows a successful `git status`.
pub enum StatusOutcome {
    /// Nothing changed: nothing to do.
    Clean,
    /// Changes, but a dry run: print this line.
    DryRun { line: String },
    /// Changes: stage and commit this many paths.
    Commit { count: usize },
}

pub fn after_status(porcelain_output: &str, vault: &str, dry_run: bool) -> (o: StatusOutcome)
    ensures
        trim_spec(porcelain_output@).len() == 0 ==> o is Clean,
        trim_spec(porcelain_output@).len() > 0 && dry_run ==> (o matches StatusOutcome::DryRun {
            line,
        } && line@ == "[vault-backup] (dry-run) would commit "@ + decimal(
            lines_spec(porcelain_output@).len(),
        ) + " changed path(s) in "@ + vault@),
        trim_spec(porcelain_output@).len() > 0 && !dry_run ==> (o matches StatusOutcome::Commit {
            count,
        } && count == lines_spec(porcelain_output@).len()),
{
    if !is_dirty(porcelain_output) {
        return StatusOutcome::Clean;
    }
    let count = changed_paths(porcelain_output);
    if dry_run {
        let mut line = concat("[vault-backup] (dry-run) would commit ", usize_to_string(count).as_str());
        push_str(&mut line, " changed path(s) in ");
        push_str(&mut line, vault);
        StatusOutcome::DryRun { line }
    } else {
        StatusOutcome::Commit { count }
    }
}

/// The commit message for a clock reading: `auto: backup ` and the UTC time
/// chrono renders as `%Y-%m-%d %H:%M:%S UTC`, or `None` where chrono
/// renders nothing.
pub open spec fn commit_message_text(secs: i64, nanos: u32) -> Option<Seq<char>> {
    match crate::clock::chrono_utc_format(secs, nanos, "%Y-%m-%d %H:%M:%S UTC"@) {
        Some(t) => Some("auto: backup "@ + t),
        None => None,
    }
}

/// The commit message for a clock reading of `secs` seconds and `nanos`
/// nanoseconds after the Unix epoch. Any time up to the year 9999 renders.
pub fn commit_message_at(secs: i64, nanos: u32) -> (r: Option<String>)
    ensures
        crate::clock::opt_text(r) == commit_message_text(secs, nanos),
        0 <= secs < crate::clock::year_ten_thousand() && nanos < 1_000_000_000 ==> r is Some,
        r matches Some(m) ==> exists|t: Seq<char>|
            crate::clock::is_utc_stamp(t) && m@ == "auto: backup "@ + t,
{
    match crate::clock::utc_formatted(secs, nanos, "%Y-%m-%d %H:%M:%S UTC") {
        Some(stamp) => {
            let m = concat("auto: backup ", stamp.as_str());
            assert(crate::clock::is_utc_stamp(stamp@) && m@ == "auto: backup "@ + stamp@);
            Some(m)
        },
        None => None,
    }
}

/// The commit message for the current time: `commit_message_at` of the
/// clock's reading. Which time that is depends on the clock; `None` when the
/// clock reads earlier than the Unix epoch.
pub fn commit_message_now() -> (r: Option<String>)
    ensures
        r matches Some(m) ==> exists|secs: i64, nanos: u32|
            0 <= secs && nanos < 1_000_000_000 && #[trigger] commit_message_text(secs, nanos)
                == Some(m@),
        r matches Some(m) ==> exists|t: Seq<char>|
            crate::clock::is_utc_stamp(t) && m@ == "auto: backup "@ + t,
{
    match crate::clock::epoch_reading() {
        Some((secs, nanos)) => commit_message_at(secs, nanos),
        None => None,
    }
}

/// The error when the vault is not a git repository.
pub fn not_a_repo_message(vault: &str) -> (r: String)
    ensures
        r@ == vault@ + " is not a git repo"@,
{
    concat(vault, " is not a git repo")
}

/// The error when a git step fails, with git's stderr.
pub fn git_step_failed(step: &str, stderr: &str) -> (r: String)
    ensures
        r@ == "git "@ + step@ + " failed: "@ + stderr@,
{
    let mut r = concat("git ", step);
    push_str(&mut r, " failed: ");
    push_str(&mut r, stderr);
    r
}

/// The log line and notification body after a successful commit.
pub fn committed(count: usize, message: &str) -> (r: (String, String))
    ensures
        r.0@ == "[vault-backup] committed "@ + decimal(count as nat) + " changed path(s): "@
            + message@,
        r.1@ == decimal(count as nat) + " path(s) committed"@,
{
    let n = usize_to_string(count);
    let mut line = concat("[vault-backup] committed ", n.as_str());
    push_str(&mut line, " changed path(s): ");
    push_str(&mut line, message);
    let body = concat(n.as_str(), " path(s) committed");
    (line, body)
}

/// The log line when a push fails; the commit stays safe locally.
pub fn push_failed_line(stderr: &str) -> (r: String)
    ensures
        r@ == "[vault-backup] push failed (commit is still safe locally): "@ + stderr@,
{
    concat("[vault-backup] push failed (commit is still safe locally): ", stderr)
}

/// Where a backup run stands: which git command the daemon is running.
pub enum BackupState {
    /// Nothing done yet; the daemon looks for `<vault>/.git`.
    Start,
    /// `git status --porcelain` is running.
    Status,
    /// `git add -A` is running; `count` changed paths will be committed.
    Adding { count: usize },
    /// `git commit -m <message>` is running for `count` changed paths.
    Committing { count: usize, message: String },
    /// `git push` is running.
    Pushing,
    /// The run is over.
    Done,
}

/// What the daemon reports after the work a step asked for.
pub enum BackupEvent {
    /// Whether `<vault>/.git` exists.
    RepoChecked { is_repo: bool },
    /// `git status --porcelain` exited, successfully or not, with its output.
    StatusRan { success: bool, stdout: String, stderr: String },
    /// `git add -A` ran (its exit status is not looked at), and the commit
    /// message was made from the clock (`commit_message_now`).
    Added { message: String },
    /// `git commit` exited, successfully or not.
    CommitRan { success: bool, stderr: String },
    /// `git push` exited, successfully or not.
    PushRan { success: bool, stderr: String },
}

/// What the daemon does next.
pub enum BackupAction {
    RunStatus,
    RunAdd,
    RunCommit { message: String },
    RunPush,
    /// The run ends without error.
    Finish,
    /// The run ends with this error.
    Fail { error: String },
}

/// One step of a backup run: the next state, the next work, and what to
/// report first (a line on stdout, a line on stderr, a notification).
pub struct BackupStep {
    pub state: BackupState,
    pub action: BackupAction,
    pub print: Option<String>,
    pub eprint: Option<String>,
    pub notify: Option<(String, String)>,
}

/// The event is the one the state waits for.
pub open spec fn backup_event_fits(state: BackupState, event: BackupEvent) -> bool {
    match state {
        BackupState::Start => event is RepoChecked,
        BackupState::Status => event is StatusRan,
        BackupState::Adding { .. } => event is Added,
        BackupState::Committing { .. } => event is CommitRan,
        BackupState::Pushing => event is PushRan,
        BackupState::Done => false,
    }
}

/// The step reports nothing.
pub open spec fn reports_nothing(s: BackupStep) -> bool {
    s.print is None && s.eprint is None && s.notify is None
}

/// The step ends the run with this error and reports nothing.
pub open spec fn fails_with(s: BackupStep, e: Seq<char>) -> bool {
    &&& s.state is Done
    &&& s.action matches BackupAction::Fail { error } && error@ == e
    &&& reports_nothing(s)
}

fn quiet(state: BackupState, action: BackupAction) -> (s: BackupStep)
    ensures
        s.state == state,
        s.action == action,
        reports_nothing(s),
{
    BackupStep { state, action, print: None, eprint: None, notify: None }
}

/// The decisions of a backup run, one git command at a time: check that the
/// vault is a git repository, read its status, stop when it is clean or on
/// a dry run, otherwise stage everything, commit with the clock's message,
/// report and notify, and push only when configured. A failed check,
/// status or commit ends the run with an error; a failed push is reported
/// and notified, and the run still ends without error (the commit is safe
/// locally).
pub fn backup_step(
    state: BackupState,
    event: BackupEvent,
    vault: &str,
    dry_run: bool,
    push: bool,
) -> (s: BackupStep)
    requires
        backup_event_fits(state, event),
    ensures
        match event {
            BackupEvent::RepoChecked { is_repo } => if is_repo {
                s.state is Status && s.action is RunStatus && reports_nothing(s)
            } else {
                fails_with(s, vault@ + " is not a git repo"@)
            },
            BackupEvent::StatusRan { success, stdout, stderr } => if !success {
                fails_with(s, "git "@ + "status"@ + " failed: "@ + stderr@)
            } else if trim_spec(stdout@).len() == 0 {
                s.state is Done && s.action is Finish && reports_nothing(s)
            } else if dry_run {
                &&& s.state is Done
                &&& s.action is Finish
                &&& s.print matches Some(line) && line@ == "[vault-backup] (dry-run) would commit "@
                    + decimal(lines_spec(stdout@).len()) + " changed path(s) in "@ + vault@
                &&& s.eprint is None && s.notify is None
            } else {
                &&& s.state matches BackupState::Adding { count } && count == lines_spec(
                    stdout@,
                ).len()
                &&& s.action is RunAdd
                &&& reports_nothing(s)
            },
            BackupEvent::Added { message } => {
                &&& s.state matches BackupState::Committing { count, message: m } && count
                    == state->Adding_count && m@ == message@
                &&& s.action matches BackupAction::RunCommit { message: m } && m@ == message@
                &&& reports_nothing(s)
            },
            BackupEvent::CommitRan { success, stderr } => if !success {
                fails_with(s, "git "@ + "commit"@ + " failed: "@ + stderr@)
            } else {
                &&& s.print matches Some(line) && line@ == "[vault-backup] committed "@ + decimal(
                    state->Committing_count as nat,
                ) + " changed path(s): "@ + state->Committing_message@
                &&& s.notify matches Some(n) && n.0@ == "ApexDaemon: vault backed up"@ && n.1@
                    == decimal(state->Committing_count as nat) + " path(s) committed"@
                &&& s.eprint is None
                &&& if push {
                    s.state is Pushing && s.action is RunPush
                } else {
                    s.state is Done && s.action is Finish
                }
            },
            BackupEvent::PushRan { success, stderr } => {
                &&& s.state is Done
                &&& s.action is Finish
                &&& if success {
                    s.print matches Some(line) && line@ == "[vault-backup] pushed"@ && s.eprint is None
                        && s.notify is None
                } else {
                    &&& s.print is None
                    &&& s.eprint matches Some(line) && line@
                        == "[vault-backup] push failed (commit is still safe locally): "@
                        + stderr@
                    &&& s.notify matches Some(n) && n.0@ == "ApexDaemon: vault push failed"@
                        && n.1@
                        == "commit is safe locally — push manually (likely needs an unlocked ssh-agent)"@
                }
            },
        },
{
    match event {
        BackupEvent::RepoChecked { is_repo } => {
            if is_repo {
                quiet(BackupState::Status, BackupAction::RunStatus)
            } else {
                quiet(BackupState::Done, BackupAction::Fail { error: not_a_repo_message(vault) })
            }
        },
        BackupEvent::StatusRan { success, stdout, stderr } => {
            if !success {
                return quiet(
                    BackupState::Done,
                    BackupAction::Fail { error: git_step_failed("status", stderr.as_str()) },
                );
            }
            match after_status(stdout.as_str(), vault, dry_run) {
                StatusOutcome::Clean => quiet(BackupState::Done, BackupAction::Finish),
                StatusOutcome::DryRun { line } => BackupStep {
                    state: BackupState::Done,
                    action: BackupAction::Finish,
                    print: Some(line),
                    eprint: None,
                    notify: None,
                },
                StatusOutcome::Commit { count } => quiet(
                    BackupState::Adding { count },
                    BackupAction::RunAdd,
                ),
            }
        },
        BackupEvent::Added { message } => {
            let count = match state {
                BackupState::Adding { count } => count,
                _ => 0,
            };
            let m2 = crate::text::copy_str(message.as_str());
            quiet(
                BackupState::Committing { count, message },
                BackupAction::RunCommit { message: m2 },
            )
        },
        BackupEvent::CommitRan { success, stderr } => {
            if !success {
                return quiet(
                    BackupState::Done,
                    BackupAction::Fail { error: git_step_failed("commit", stderr.as_str()) },
                );
            }
            match state {
                BackupState::Committing { count, message } => {
                    let (line, body) = committed(count, message.as_str());
                    let (next, action) = if push {
                        (BackupState::Pushing, BackupAction::RunPush)
                    } else {
                        (BackupState::Done, BackupAction::Finish)
                    };
                    BackupStep {
                        state: next,
                        action,
                        print: Some(line),
                        eprint: None,
                        notify: Some(("ApexDaemon: vault backed up".to_owned(), body)),
                    }
                },
                _ => quiet(BackupState::Done, BackupAction::Finish),
            }
        },
        BackupEvent::PushRan { success, stderr } => {
            if success {
                BackupStep {
                    state: BackupState::Done,
                    action: BackupAction::Finish,
                    print: Some("[vault-backup] pushed".to_owned()),
                    eprint: None,
                    notify: None,
                }
            } else {
                BackupStep {
                    state: BackupState::Done,
                    action: BackupAction::Finish,
                    print: None,
                    eprint: Some(push_failed_line(stderr.as_str())),
                    notify: Some(
                        (
                            "ApexDaemon: vault push failed".to_owned(),
                            "commit is safe locally — push manually (likely needs an unlocked ssh-agent)".to_owned(),
                        ),
                    ),
                }
            }
        },
    }
}

} // verus!
