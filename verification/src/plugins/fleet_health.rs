//! Polls the configured services and brings a down one back up by starting
//! it, never by stopping or killing anything. A start is attempted only for
//! services with an explicit `start_cmd`, and at most once per backoff
//! window.

use vstd::prelude::*;
use crate::config::{AppConfig, HealthCheck, UnitScope, WatchedService};
use crate::text::{concat, push_str};

verus! {

pub struct FleetHealthPlugin;

impl FleetHealthPlugin {
    pub fn name(&self) -> (r: &'static str)
        ensures
            r@ == "fleet-health"@,
    {
        "fleet-health"
    }

    /// Seconds between two rounds of checks: the configured interval, at
    /// least 5.
    pub fn period_secs(&self, cfg: &AppConfig) -> (r: u64)
        ensures
            r == if cfg.fleet_health.interval_secs < 5 {
                5
            } else {
                cfg.fleet_health.interval_secs
            },
    {
        if cfg.fleet_health.interval_secs < 5 {
            5
        } else {
            cfg.fleet_health.interval_secs
        }
    }
}

/// `x` reduced into the `i64` range with two's-complement wrap-around, as
/// the release build computes `i64` subtraction and `u64 as i64`.
pub open spec fn wrap_i64(x: int) -> int {
    let m = 0x1_0000_0000_0000_0000int;
    let r = (x + 0x8000_0000_0000_0000int) % m;
    r - 0x8000_0000_0000_0000int
}

fn wrap_to_i64(x: i128) -> (r: i128)
    requires
        -0x1_0000_0000_0000_0000 < x < 0x1_0000_0000_0000_0000,
    ensures
        r == wrap_i64(x as int),
        i64::MIN <= r <= i64::MAX,
{
    if x > 0x7fff_ffff_ffff_ffff {
        assert(((x + 0x8000_0000_0000_0000int) % 0x1_0000_0000_0000_0000int) == x + 0x8000_0000_0000_0000int
            - 0x1_0000_0000_0000_0000int) by (nonlinear_arith)
            requires
                0x7fff_ffff_ffff_ffff < x < 0x1_0000_0000_0000_0000,
        ;
        x - 0x1_0000_0000_0000_0000
    } else if x < -0x8000_0000_0000_0000 {
        assert(((x + 0x8000_0000_0000_0000int) % 0x1_0000_0000_0000_0000int) == x + 0x8000_0000_0000_0000int
            + 0x1_0000_0000_0000_0000int) by (nonlinear_arith)
            requires
                -0x1_0000_0000_0000_0000 < x < -0x8000_0000_0000_0000,
        ;
        x + 0x1_0000_0000_0000_0000
    } else {
        assert(((x + 0x8000_0000_0000_0000int) % 0x1_0000_0000_0000_0000int) == x + 0x8000_0000_0000_0000int) by (nonlinear_arith)
            requires
                -0x8000_0000_0000_0000 <= x <= 0x7fff_ffff_ffff_ffff,
        ;
        x
    }
}

/// Whether a restart may be attempted: always when none was attempted
/// before, otherwise when at least `backoff_secs` have passed since the
/// last attempt (`now - last >= backoff_secs as i64`, in wrapping `i64`
/// arithmetic).
pub open spec fn restart_allowed(last_attempt: Option<i64>, now: i64, backoff_secs: u64) -> bool {
    match last_attempt {
        None => true,
        Some(last) => wrap_i64(now - last) >= wrap_i64(backoff_secs as int),
    }
}

pub fn should_attempt_restart(last_attempt: Option<i64>, now: i64, backoff_secs: u64) -> (b: bool)
    ensures
        b == restart_allowed(last_attempt, now, backoff_secs),
{
    match last_attempt {
        None => true,
        Some(last) => {
            let elapsed = wrap_to_i64(now as i128 - last as i128);
            let backoff = wrap_to_i64(backoff_secs as i128);
            elapsed >= backoff
        },
    }
}

proof fn lemma_wrap_in_range(x: int)
    requires
        -0x8000_0000_0000_0000 <= x <= 0x7fff_ffff_ffff_ffff,
    ensures
        wrap_i64(x) == x,
{
    assert((x + 0x8000_0000_0000_0000int) % 0x1_0000_0000_0000_0000int == x
        + 0x8000_0000_0000_0000int) by (nonlinear_arith)
        requires
            0 <= x + 0x8000_0000_0000_0000int < 0x1_0000_0000_0000_0000int,
    ;
}

/// After a restart attempt, no other is made until the backoff has passed,
/// and one is allowed as soon as it has; with no attempt on record one is
/// always allowed; a clock that has gone back allows none. (For times whose
/// difference fits in an `i64` and a backoff that does; beyond that the
/// release build's wrap-around decides.)
pub proof fn law_restart_backoff_window(last: i64, now: i64, backoff_secs: u64)
    requires
        i64::MIN <= now - last <= i64::MAX,
        backoff_secs <= i64::MAX,
    ensures
        restart_allowed(None, now, backoff_secs),
        now - last < backoff_secs ==> !restart_allowed(Some(last), now, backoff_secs),
        now - last >= backoff_secs ==> restart_allowed(Some(last), now, backoff_secs),
{
    lemma_wrap_in_range(now - last);
    lemma_wrap_in_range(backoff_secs as int);
}

/// Where `now - last` does not overflow an `i64` (and the backoff fits in
/// one), a restart is allowed exactly when `now - last >= backoff`; so once
/// allowed it stays allowed as time goes on.
pub proof fn law_restart_allowed_monotone(last: i64, now: i64, later: i64, backoff_secs: u64)
    requires
        i64::MIN <= now - last <= i64::MAX,
        i64::MIN <= later - last <= i64::MAX,
        now <= later,
        backoff_secs <= i64::MAX,
    ensures
        restart_allowed(Some(last), now, backoff_secs) == (now - last >= backoff_secs),
        restart_allowed(Some(last), now, backoff_secs) ==> restart_allowed(
            Some(last),
            later,
            backoff_secs,
        ),
{
    lemma_wrap_in_range(now - last);
    lemma_wrap_in_range(later - last);
    lemma_wrap_in_range(backoff_secs as int);
}

/// The state-store key under which a service's last restart attempt is
/// recorded.
pub open spec fn backoff_key_spec(name: Seq<char>) -> Seq<char> {
    "fleet_health_last_restart_"@ + name
}

pub fn backoff_key(name: &str) -> (r: String)
    ensures
        r@ == backoff_key_spec(name@),
{
    concat("fleet_health_last_restart_", name)
}

/// What to do about one service after its health check.
pub enum RestartPlan {
    /// The check passed.
    Healthy,
    /// Down with no `start_cmd`: only raise "service down" with this body.
    AlertOnly { body: String },
    /// Down, but a start was attempted less than a backoff window ago.
    BackingOff,
    /// Down, and a start is due, but this is a dry run: print this line.
    DryRun { line: String },
    /// Down and a start is due: print `line`, run `command` with `sh -c`,
    /// record `now` under the service's backoff key.
    Start { command: String, line: String, now: i64 },
}

/// The decision for one service, given whether its check passed, the last
/// recorded restart attempt and the current time.
pub open spec fn restart_plan_spec(
    name: Seq<char>,
    start_cmd: Option<Seq<char>>,
    healthy: bool,
    last_attempt: Option<i64>,
    now: i64,
    backoff_secs: u64,
    dry_run: bool,
    plan: RestartPlan,
) -> bool {
    if healthy {
        plan is Healthy
    } else {
        match start_cmd {
            None => plan matches RestartPlan::AlertOnly { body } && body@ == name
                + " failed its health check (no start_cmd configured — alert only)"@,
            Some(cmd) => if !restart_allowed(last_attempt, now, backoff_secs) {
                plan is BackingOff
            } else if dry_run {
                plan matches RestartPlan::DryRun { line } && line@
                    == "[fleet-health] (dry-run) would run start_cmd for "@ + name + ": "@ + cmd
            } else {
                plan matches RestartPlan::Start { command, line, now: t } && command@ == cmd
                    && line@ == "[fleet-health] starting "@ + name + ": "@ + cmd && t == now
            },
        }
    }
}

/// Restarts of a down service are spaced by the backoff: a start is
/// planned only when it is due and this is no dry run, and the plan carries
/// the time it was taken at, which the daemon records as the last attempt.
/// So with `t1` the recorded attempt, a start at `t2` comes at least
/// `backoff_secs` later; when the clock has gone back (`t2` before `t1`) no
/// start is planned at all. This holds for any two times whose difference
/// fits in an `i64`. A dry run starts nothing, a healthy service is left
/// alone, and no plan stops or kills anything.
pub proof fn law_restarts_spaced_by_backoff(
    name: Seq<char>,
    start_cmd: Option<Seq<char>>,
    healthy: bool,
    t1: i64,
    t2: i64,
    backoff_secs: u64,
    dry_run: bool,
    plan: RestartPlan,
)
    requires
        restart_plan_spec(name, start_cmd, healthy, Some(t1), t2, backoff_secs, dry_run, plan),
        i64::MIN <= t2 - t1 <= i64::MAX,
        backoff_secs <= i64::MAX,
    ensures
        healthy ==> plan is Healthy,
        dry_run ==> !(plan is Start),
        plan matches RestartPlan::Start { now, .. } ==> now == t2 && t2 - t1 >= backoff_secs
            && start_cmd is Some && !healthy,
        t2 < t1 ==> !(plan is Start),
{
    law_restart_backoff_window(t1, t2, backoff_secs);
}

pub fn restart_plan(
    svc: &WatchedService,
    healthy: bool,
    last_attempt: Option<i64>,
    now: i64,
    backoff_secs: u64,
    dry_run: bool,
) -> (p: RestartPlan)
    ensures
        restart_plan_spec(
            svc.name@,
            match svc.start_cmd {
                Some(c) => Some(c@),
                None => None,
            },
            healthy,
            last_attempt,
            now,
            backoff_secs,
            dry_run,
            p,
        ),
{
    if healthy {
        return RestartPlan::Healthy;
    }
    match &svc.start_cmd {
        None => {
            let body = concat(
                svc.name.as_str(),
                " failed its health check (no start_cmd configured — alert only)",
            );
            RestartPlan::AlertOnly { body }
        },
        Some(cmd) => {
            if !should_attempt_restart(last_attempt, now, backoff_secs) {
                RestartPlan::BackingOff
            } else if dry_run {
                let mut line = concat(
                    "[fleet-health] (dry-run) would run start_cmd for ",
                    svc.name.as_str(),
                );
                push_str(&mut line, ": ");
                push_str(&mut line, cmd.as_str());
                RestartPlan::DryRun { line }
            } else {
                let mut line = concat("[fleet-health] starting ", svc.name.as_str());
                push_str(&mut line, ": ");
                push_str(&mut line, cmd.as_str());
                RestartPlan::Start { command: cmd.clone(), line, now }
            }
        },
    }
}

/// The same decision taken at the current time, as the daemon does it. The
/// clock is read only when it matters, for a down service with a start
/// command; the plan is the one for that reading, and the reading is
/// returned with it. `None` only when the clock had to be read and reads
/// earlier than the Unix epoch.
pub fn restart_plan_now(
    svc: &WatchedService,
    healthy: bool,
    last_attempt: Option<i64>,
    backoff_secs: u64,
    dry_run: bool,
) -> (r: Option<(RestartPlan, Option<i64>)>)
    ensures
        r is None ==> !healthy && svc.start_cmd is Some,
        r matches Some(p) ==> (p.1 is Some <==> (!healthy && svc.start_cmd is Some)),
        r matches Some(p) ==> restart_plan_spec(
            svc.name@,
            match svc.start_cmd {
                Some(c) => Some(c@),
                None => None,
            },
            healthy,
            last_attempt,
            match p.1 {
                Some(t) => t,
                None => 0,
            },
            backoff_secs,
            dry_run,
            p.0,
        ),
{
    if healthy || svc.start_cmd.is_none() {
        Some((restart_plan(svc, healthy, last_attempt, 0, backoff_secs, dry_run), None))
    } else {
        match crate::clock::unix_now() {
            Some(now) => Some(
                (restart_plan(svc, healthy, last_attempt, now, backoff_secs, dry_run), Some(now)),
            ),
            None => None,
        }
    }
}

/// The line logged when a service fails its check.
pub fn down_line(name: &str) -> (r: String)
    ensures
        r@ == "[fleet-health] "@ + name@ + " is down"@,
{
    let mut r = concat("[fleet-health] ", name);
    push_str(&mut r, " is down");
    r
}

/// The notification after trying to start a service: "service restarted"
/// when the command was launched, "restart failed" with the launch error
/// otherwise.
pub fn start_outcome(name: &str, launch_error: Option<&str>) -> (r: (String, String))
    ensures
        match launch_error {
            None => r.0@ == "ApexDaemon: service restarted"@ && r.1@ == "started "@ + name@,
            Some(e) => r.0@ == "ApexDaemon: restart failed"@ && r.1@ == name@
                + " start_cmd failed: "@ + e@,
        },
{
    match launch_error {
        None => ("ApexDaemon: service restarted".to_owned(), concat("started ", name)),
        Some(e) => {
            let mut body = concat(name, " start_cmd failed: ");
            push_str(&mut body, e);
            ("ApexDaemon: restart failed".to_owned(), body)
        },
    }
}

/// The `curl` arguments of an HTTP check: fail on HTTP errors, quiet, three
/// second limit, body discarded.
pub fn http_check_args(url: &str) -> (r: Vec<String>)
    ensures
        crate::text::views(r@) == seq![
            "-fsS"@,
            "--max-time"@,
            "3"@,
            "-o"@,
            "/dev/null"@,
            url@,
        ],
{
    let mut r: Vec<String> = Vec::new();
    r.push("-fsS".to_owned());
    r.push("--max-time".to_owned());
    r.push("3".to_owned());
    r.push("-o".to_owned());
    r.push("/dev/null".to_owned());
    r.push(url.to_owned());
    assert(crate::text::views(r@) =~= seq![
        "-fsS"@,
        "--max-time"@,
        "3"@,
        "-o"@,
        "/dev/null"@,
        url@,
    ]);
    r
}

/// The `systemctl` arguments of a unit check: `--user` first for a user
/// unit, then `is-active --quiet <unit>`.
pub fn unit_check_args(unit: &str, scope: UnitScope) -> (r: Vec<String>)
    ensures
        crate::text::views(r@) == (if scope == UnitScope::User {
            seq!["--user"@]
        } else {
            Seq::empty()
        }) + seq!["is-active"@, "--quiet"@, unit@],
{
    let mut r: Vec<String> = Vec::new();
    if scope == UnitScope::User {
        r.push("--user".to_owned());
    }
    let ghost first = crate::text::views(r@);
    r.push("is-active".to_owned());
    r.push("--quiet".to_owned());
    r.push(unit.to_owned());
    assert(crate::text::views(r@) =~= first + seq!["is-active"@, "--quiet"@, unit@]);
    assert(first =~= (if scope == UnitScope::User {
        seq!["--user"@]
    } else {
        Seq::empty()
    }));
    r
}

/// The target of a service's check, for the binary to probe.
pub enum Probe {
    Tcp(String),
    Http(Vec<String>),
    Systemd(Vec<String>),
}

pub fn probe_for(check: &HealthCheck) -> (p: Probe)
    ensures
        match (check, p) {
            (HealthCheck::Tcp { addr }, Probe::Tcp(a)) => a@ == addr@,
            (HealthCheck::Http { url }, Probe::Http(args)) => crate::text::views(args@) == seq![
                "-fsS"@,
                "--max-time"@,
                "3"@,
                "-o"@,
                "/dev/null"@,
                url@,
            ],
            (HealthCheck::SystemdUnit { unit, scope }, Probe::Systemd(args)) => crate::text::views(
                args@,
            ) == (if scope == UnitScope::User {
                seq!["--user"@]
            } else {
                Seq::empty()
            }) + seq!["is-active"@, "--quiet"@, unit@],
            _ => false,
        },
{
    match check {
        HealthCheck::Tcp { addr } => Probe::Tcp(addr.clone()),
        HealthCheck::Http { url } => Probe::Http(http_check_args(url.as_str())),
        HealthCheck::SystemdUnit { unit, scope } => Probe::Systemd(
            unit_check_args(unit.as_str(), *scope),
        ),
    }
}

} // verus!
