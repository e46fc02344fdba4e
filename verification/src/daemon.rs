//! The daemon's own decisions: the `--admin` service control, which
//! plugins run, the lines it prints, and the supervisor's restart backoff.

use vstd::prelude::*;
use crate::config::PluginToggles;
use crate::text::{concat, decimal, join, join_spec, push_str, u64_to_string, views};

verus! {

/// The action `--admin` was asked for.
pub open spec fn admin_action_spec(start: bool, stop: bool, restart: bool, status: bool) -> Result<
    Seq<char>,
    Seq<char>,
> {
    if start && !stop && !restart && !status {
        Ok("start"@)
    } else if !start && stop && !restart && !status {
        Ok("stop"@)
    } else if !start && !stop && restart && !status {
        Ok("restart"@)
    } else if !start && !stop && !restart && status {
        Ok("status"@)
    } else if !start && !stop && !restart && !status {
        Err("--admin needs exactly one of --start, --stop, --restart, --status"@)
    } else {
        Err(
            "--admin takes exactly one of --start, --stop, --restart, --status, not several at once"@,
        )
    }
}

/// Exactly one of the four flags selects the `systemctl --user` action;
/// none or several is a usage error (exit status 1).
pub fn admin_action(start: bool, stop: bool, restart: bool, status: bool) -> (r: Result<
    &'static str,
    &'static str,
>)
    ensures
        match (r, admin_action_spec(start, stop, restart, status)) {
            (Ok(a), Ok(b)) => a@ == b,
            (Err(a), Err(b)) => a@ == b,
            _ => false,
        },
{
    match (start, stop, restart, status) {
        (true, false, false, false) => Ok("start"),
        (false, true, false, false) => Ok("stop"),
        (false, false, true, false) => Ok("restart"),
        (false, false, false, true) => Ok("status"),
        (false, false, false, false) => Err(
            "--admin needs exactly one of --start, --stop, --restart, --status",
        ),
        _ => Err(
            "--admin takes exactly one of --start, --stop, --restart, --status, not several at once",
        ),
    }
}

/// The `systemctl` arguments for an admin action on the user unit.
pub fn admin_command_args(action: &str) -> (r: Vec<String>)
    ensures
        views(r@) == seq!["--user"@, action@, "apexdaemon"@],
{
    let mut r: Vec<String> = Vec::new();
    r.push("--user".to_owned());
    r.push(action.to_owned());
    r.push("apexdaemon".to_owned());
    assert(views(r@) =~= seq!["--user"@, action@, "apexdaemon"@]);
    r
}

/// The line printed before running an admin action.
pub fn admin_log_line(action: &str) -> (r: String)
    ensures
        r@ == "[admin] running: systemctl --user "@ + action@ + " apexdaemon"@,
{
    let mut r = concat("[admin] running: systemctl --user ", action);
    push_str(&mut r, " apexdaemon");
    r
}

/// The supervised plugins, in registration order.
#[derive(Debug, Clone, Copy, PartialEq, Eq, Structural)]
pub enum PluginKind {
    ThemeSync,
    FleetHealth,
    Security,
    VaultBackup,
    RepoHousekeeping,
}

pub open spec fn plugin_name_spec(k: PluginKind) -> Seq<char> {
    match k {
        PluginKind::ThemeSync => "theme-sync"@,
        PluginKind::FleetHealth => "fleet-health"@,
        PluginKind::Security => "security"@,
        PluginKind::VaultBackup => "vault-backup"@,
        PluginKind::RepoHousekeeping => "repo-housekeeping"@,
    }
}

pub fn plugin_name(k: PluginKind) -> (r: &'static str)
    ensures
        r@ == plugin_name_spec(k),
{
    match k {
        PluginKind::ThemeSync => "theme-sync",
        PluginKind::FleetHealth => "fleet-health",
        PluginKind::Security => "security",
        PluginKind::VaultBackup => "vault-backup",
        PluginKind::RepoHousekeeping => "repo-housekeeping",
    }
}

/// The registered plugins with their switches, in order.
pub open spec fn registry_spec(t: PluginToggles) -> Seq<(bool, PluginKind)> {
    seq![
        (t.theme_sync, PluginKind::ThemeSync),
        (t.fleet_health, PluginKind::FleetHealth),
        (t.security, PluginKind::Security),
        (t.vault_backup, PluginKind::VaultBackup),
        (t.repo_housekeeping, PluginKind::RepoHousekeeping),
    ]
}

pub fn registry(t: &PluginToggles) -> (r: Vec<(bool, PluginKind)>)
    ensures
        r@ == registry_spec(*t),
{
    let mut r: Vec<(bool, PluginKind)> = Vec::new();
    r.push((t.theme_sync, PluginKind::ThemeSync));
    r.push((t.fleet_health, PluginKind::FleetHealth));
    r.push((t.security, PluginKind::Security));
    r.push((t.vault_backup, PluginKind::VaultBackup));
    r.push((t.repo_housekeeping, PluginKind::RepoHousekeeping));
    assert(r@ =~= registry_spec(*t));
    r
}

/// The enabled plugins, in registration order.
pub fn enabled_plugins(reg: &Vec<(bool, PluginKind)>) -> (r: Vec<PluginKind>)
    ensures
        r@ == reg@.filter(|e: (bool, PluginKind)| e.0).map_values(|e: (bool, PluginKind)| e.1),
{
    let ghost keep = |e: (bool, PluginKind)| e.0;
    let ghost second = |e: (bool, PluginKind)| e.1;
    let mut r: Vec<PluginKind> = Vec::new();
    let mut i: usize = 0;
    while i < reg.len()
        invariant
            i <= reg.len(),
            keep == (|e: (bool, PluginKind)| e.0),
            second == (|e: (bool, PluginKind)| e.1),
            r@ == reg@.take(i as int).filter(keep).map_values(second),
        decreases reg.len() - i,
    {
        proof {
            assert(reg@.take(i + 1) =~= reg@.take(i as int).push(reg@[i as int]));
            reg@.take(i as int).lemma_filter_push(reg@[i as int], keep);
        }
        if reg[i].0 {
            r.push(reg[i].1);
            assert(reg@.take(i as int).filter(keep).push(reg@[i as int]).map_values(second)
                =~= reg@.take(i as int).filter(keep).map_values(second).push(reg@[i as int].1));
        }
        i = i + 1;
    }
    assert(reg@.take(reg@.len() as int) =~= reg@);
    r
}

/// `s` left-aligned in a field of `width` characters (`{:<width}`).
pub open spec fn pad_right(s: Seq<char>, width: nat) -> Seq<char> {
    if s.len() >= width {
        s
    } else {
        s + Seq::new((width - s.len()) as nat, |i: int| ' ')
    }
}

/// A `--list-plugins` line: the name in a 20-character column, then
/// `enabled` or `disabled`.
pub fn list_line(name: &str, enabled: bool) -> (r: String)
    ensures
        r@ == pad_right(name@, 20) + " "@ + (if enabled {
            "enabled"@
        } else {
            "disabled"@
        }),
{
    let mut r = name.to_owned();
    let n = crate::text::chars_of(name).len();
    if n < 20 {
        let mut k = n;
        assert(r@ =~= name@ + Seq::new(0, |i: int| ' '));
        while k < 20
            invariant
                n == name@.len(),
                n <= k <= 20,
                r@ == name@ + Seq::new((k - n) as nat, |i: int| ' '),
            decreases 20 - k,
        {
            r.push(' ');
            assert(r@ =~= name@ + Seq::new((k + 1 - n) as nat, |i: int| ' '));
            k = k + 1;
        }
    }
    push_str(&mut r, " ");
    push_str(&mut r, if enabled {
        "enabled"
    } else {
        "disabled"
    });
    r
}

/// The line announcing the plugins that start.
pub fn startup_line(names: &Vec<String>) -> (r: String)
    ensures
        r@ == "[ApexDaemon] starting with plugins: "@ + join_spec(views(names@), ", "@),
{
    concat("[ApexDaemon] starting with plugins: ", join(names, ", ").as_str())
}

/// The supervisor's first wait before restarting a plugin, in seconds.
pub fn initial_backoff_secs() -> (r: u64)
    ensures
        r == 5,
{
    5
}

/// The supervisor's next wait: twice the last one, at most 120 seconds.
pub open spec fn next_backoff_spec(secs: int) -> int {
    if 2 * secs < 120 {
        2 * secs
    } else {
        120
    }
}

pub fn next_backoff_secs(secs: u64) -> (r: u64)
    ensures
        r == next_backoff_spec(secs as int),
{
    if secs >= 60 {
        120
    } else {
        secs * 2
    }
}

/// The wait before restart number `n + 1` of a plugin that keeps failing.
pub open spec fn backoff_after(n: nat) -> int
    decreases n,
{
    if n == 0 {
        5
    } else {
        next_backoff_spec(backoff_after((n - 1) as nat))
    }
}

/// However often a plugin fails, the supervisor waits between 5 and 120
/// seconds before restarting it; the wait doubles while under a minute,
/// and from the sixth restart on it is 120 seconds (5, 10, 20, 40, 80,
/// 120, 120, ...).
pub proof fn law_backoff_bounded(n: nat)
    ensures
        5 <= backoff_after(n) <= 120,
        backoff_after(n) < 60 ==> backoff_after(n + 1) == 2 * backoff_after(n),
        n >= 5 ==> backoff_after(n) == 120,
    decreases n,
{
    if n > 0 {
        law_backoff_bounded((n - 1) as nat);
        if n == 5 {
            assert(backoff_after(4) == 80) by {
                reveal_with_fuel(backoff_after, 5);
            }
        }
    }
}

/// The supervisor's log line when a plugin's run ended, before the wait.
pub fn supervisor_line(name: &str, error: Option<&str>, wait_secs: u64) -> (r: String)
    ensures
        r@ == "["@ + name@ + (match error {
            None => "] exited cleanly (unexpected)"@,
            Some(e) => "] failed: "@ + e@,
        }) + " — restarting in "@ + decimal(wait_secs as nat) + "s"@,
{
    let mut r = concat("[", name);
    match error {
        None => push_str(&mut r, "] exited cleanly (unexpected)"),
        Some(e) => {
            push_str(&mut r, "] failed: ");
            push_str(&mut r, e);
        },
    }
    push_str(&mut r, " — restarting in ");
    push_str(&mut r, u64_to_string(wait_secs).as_str());
    push_str(&mut r, "s");
    r
}

/// The log line when one periodic tick of a plugin failed; the plugin
/// keeps running.
pub fn tick_error_line(name: &str, error: &str) -> (r: String)
    ensures
        r@ == "["@ + name@ + "] tick error: "@ + error@,
{
    let mut r = concat("[", name);
    push_str(&mut r, "] tick error: ");
    push_str(&mut r, error);
    r
}

} // verus!
