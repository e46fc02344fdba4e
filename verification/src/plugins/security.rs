//! Watches a configured systemd unit: whether it is running, and ban events
//! in its journal. Observe-and-alert only; the unit is never started here.

use vstd::prelude::*;
use crate::config::AppConfig;
use crate::text::{concat, contains, contains_spec, push_str, views};

verus! {

pub struct SecurityPlugin;

impl SecurityPlugin {
    pub fn name(&self) -> (r: &'static str)
        ensures
            r@ == "security"@,
    {
        "security"
    }

    /// Seconds between two status checks: the configured interval, at
    /// least 10.
    pub fn period_secs(&self, cfg: &AppConfig) -> (r: u64)
        ensures
            r == if cfg.security.interval_secs < 10 {
                10
            } else {
                cfg.security.interval_secs
            },
    {
        if cfg.security.interval_secs < 10 {
            10
        } else {
            cfg.security.interval_secs
        }
    }
}

/// The state-store key holding whether the unit was active at the last check.
pub fn unit_key(unit: &str) -> (r: String)
    ensures
        r@ == "security_unit_active_"@ + unit@,
{
    concat("security_unit_active_", unit)
}

/// The `systemctl` arguments of the status query.
pub fn unit_status_args(unit: &str) -> (r: Vec<String>)
    ensures
        views(r@) == seq!["is-active"@, "--quiet"@, unit@],
{
    let mut r: Vec<String> = Vec::new();
    r.push("is-active".to_owned());
    r.push("--quiet".to_owned());
    r.push(unit.to_owned());
    assert(views(r@) =~= seq!["is-active"@, "--quiet"@, unit@]);
    r
}

/// The notification body for a status check, if any. Only transitions are
/// reported: to inactive (or inactive at the first check), and back to
/// active after having been inactive.
pub open spec fn transition_spec(was_active: Option<bool>, active: bool, unit: Seq<char>) -> Option<
    Seq<char>,
> {
    if !active && was_active != Some(false) {
        Some(unit + " is not active — auth-failure banning is not running"@)
    } else if active && was_active == Some(false) {
        Some(unit + " is active again"@)
    } else {
        None
    }
}

/// The notification (summary "ApexDaemon: security watch") owed by one
/// status check; the new status is recorded after every check.
pub fn unit_transition(was_active: Option<bool>, active: bool, unit: &str) -> (r: Option<String>)
    ensures
        match r {
            Some(s) => transition_spec(was_active, active, unit@) == Some(s@),
            None => transition_spec(was_active, active, unit@) is None,
        },
{
    match (was_active, active) {
        (Some(true), false) | (None, false) => Some(
            concat(unit, " is not active — auth-failure banning is not running"),
        ),
        (Some(false), true) => Some(concat(unit, " is active again")),
        _ => None,
    }
}

/// Repeating a status means no notification: only changes are reported.
pub proof fn law_no_repeat_alert(status: bool, unit: Seq<char>)
    ensures
        transition_spec(Some(status), status, unit) is None,
{
}

/// The `journalctl` arguments that follow the unit's journal from now on.
pub fn journal_args(unit: &str) -> (r: Vec<String>)
    ensures
        views(r@) == seq!["-f"@, "-u"@, unit@, "-o"@, "cat"@, "--since"@, "now"@],
{
    let mut r: Vec<String> = Vec::new();
    r.push("-f".to_owned());
    r.push("-u".to_owned());
    r.push(unit.to_owned());
    r.push("-o".to_owned());
    r.push("cat".to_owned());
    r.push("--since".to_owned());
    r.push("now".to_owned());
    assert(views(r@) =~= seq!["-f"@, "-u"@, unit@, "-o"@, "cat"@, "--since"@, "now"@]);
    r
}

/// A journal line announcing a ban; such a line is forwarded as the body
/// of an "IP banned" notification, unchanged.
pub fn is_ban_line(line: &str) -> (b: bool)
    ensures
        b == contains_spec(line@, "[BANNED]"@),
{
    contains(line, "[BANNED]")
}

/// The log line when `journalctl` could not be started.
pub fn spawn_failure_line(unit: &str, error: &str) -> (r: String)
    ensures
        r@ == "[security] failed to spawn journalctl for "@ + unit@ + ": "@ + error@,
{
    let mut r = concat("[security] failed to spawn journalctl for ", unit);
    push_str(&mut r, ": ");
    push_str(&mut r, error);
    r
}

/// The log line when `journalctl` exited and is about to be restarted.
pub fn journal_exit_line(unit: &str) -> (r: String)
    ensures
        r@ == "[security] journalctl for "@ + unit@ + " exited — restarting in 10s"@,
{
    let mut r = concat("[security] journalctl for ", unit);
    push_str(&mut r, " exited — restarting in 10s");
    r
}

} // verus!
