//! Machine-profile reminders. A profile is a small TOML record; the daemon
//! only confirms it matches the machine and the daemon's own dotfiles
//! config, and never applies anything.

use vstd::prelude::*;
use crate::config::{AppConfig, DotfilesConfig, ProfilesConfig};
use crate::paths::{expand_home, expand_home_spec, is_safe_name, is_safe_name_spec, join_path, join_spec};
use crate::plugins::TickAction;
use crate::text::{concat, join, join_spec as join_lines, push_str, str_eq, trim, trim_spec, views};

verus! {

pub struct ProfilesPlugin;

impl ProfilesPlugin {
    pub fn name(&self) -> (r: &'static str)
        ensures
            r@ == "profiles"@,
    {
        "profiles"
    }

    /// Seconds between two checks: the configured interval, at least 30.
    pub fn period_secs(&self, cfg: &AppConfig) -> (r: u64)
        ensures
            r == if cfg.profiles.interval_secs < 30 {
                30
            } else {
                cfg.profiles.interval_secs
            },
    {
        if cfg.profiles.interval_secs < 30 {
            30
        } else {
            cfg.profiles.interval_secs
        }
    }
}

/// A profile record; every field is optional.
#[derive(Debug, Default)]
pub struct ProfileFile {
    pub name: Option<String>,
    pub hostname: Option<String>,
    pub public_manifest: Option<String>,
    pub private_manifest: Option<String>,
}

/// A profile name that stays inside the profile directory.
pub fn is_safe_profile_name(name: &str) -> (b: bool)
    ensures
        b == is_safe_name_spec(name@),
{
    is_safe_name(name)
}

/// Where the active profile lives, or the report when its name is unsafe.
pub fn profile_path(cfg: &ProfilesConfig, home: Option<&str>) -> (r: Result<String, String>)
    ensures
        is_safe_name_spec(cfg.active@) ==> r is Ok && r->Ok_0@ == join_spec(
            expand_home_spec(
                cfg.directory@,
                match home {
                    Some(h) => Some(h@),
                    None => None,
                },
            ),
            cfg.active@ + ".toml"@,
        ),
        !is_safe_name_spec(cfg.active@) ==> r is Err && r->Err_0@
            == "profile: invalid active profile name `"@ + cfg.active@ + "`"@,
{
    if !is_safe_profile_name(cfg.active.as_str()) {
        let mut m = concat("profile: invalid active profile name `", cfg.active.as_str());
        push_str(&mut m, "`");
        return Err(m);
    }
    let dir = expand_home(cfg.directory.as_str(), home);
    let file = concat(cfg.active.as_str(), ".toml");
    Ok(join_path(dir.as_str(), file.as_str()))
}

/// The report when the active profile's file does not exist.
pub fn missing_profile_report(path: &str) -> (r: String)
    ensures
        r@ == "profile: active profile missing ("@ + path@ + ")"@,
{
    let mut r = concat("profile: active profile missing (", path);
    push_str(&mut r, ")");
    r
}

/// The machine's hostname: `/etc/hostname` trimmed when non-empty, else
/// `$HOSTNAME`, else `unknown`.
pub open spec fn hostname_spec(etc_hostname: Option<Seq<char>>, env_hostname: Option<Seq<char>>) -> Seq<
    char,
> {
    match etc_hostname {
        Some(h) if trim_spec(h).len() > 0 => trim_spec(h),
        _ => match env_hostname {
            Some(e) => e,
            None => "unknown"@,
        },
    }
}

pub fn choose_hostname(etc_hostname: Option<&str>, env_hostname: Option<&str>) -> (r: String)
    ensures
        r@ == hostname_spec(
            match etc_hostname {
                Some(h) => Some(h@),
                None => None,
            },
            match env_hostname {
                Some(e) => Some(e@),
                None => None,
            },
        ),
{
    if let Some(h) = etc_hostname {
        let t = trim(h);
        if !t.as_str().is_empty() {
            return t;
        }
    }
    match env_hostname {
        Some(e) => e.to_owned(),
        None => "unknown".to_owned(),
    }
}

pub open spec fn mismatch(field: Option<String>, expected: Seq<char>, message: Seq<char>) -> Seq<
    Seq<char>,
> {
    match field {
        Some(v) if v@ != expected => seq![message],
        _ => Seq::empty(),
    }
}

/// Everything in the profile that disagrees with the daemon: its name, the
/// machine's hostname, and the two manifest paths.
pub open spec fn profile_issues(
    active: Seq<char>,
    profile: ProfileFile,
    actual_host: Seq<char>,
    dotfiles: DotfilesConfig,
) -> Seq<Seq<char>> {
    (match profile.name {
        Some(n) if n@ != active => seq!["name is `"@ + n@ + "`, expected `"@ + active + "`"@],
        _ => Seq::empty(),
    }) + (match profile.hostname {
        Some(h) if h@ != actual_host => seq![
            "hostname is `"@ + actual_host + "`, expected `"@ + h@ + "`"@,
        ],
        _ => Seq::empty(),
    }) + mismatch(
        profile.public_manifest,
        dotfiles.public_manifest@,
        "public manifest does not match active daemon config"@,
    ) + mismatch(
        profile.private_manifest,
        dotfiles.private_manifest@,
        "private manifest does not match active daemon config"@,
    )
}

pub open spec fn profile_report_spec(
    active: Seq<char>,
    profile: ProfileFile,
    actual_host: Seq<char>,
    dotfiles: DotfilesConfig,
) -> Seq<char> {
    let issues = profile_issues(active, profile, actual_host, dotfiles);
    if issues.len() == 0 {
        "profile: healthy"@
    } else {
        "profile `"@ + active + "`: "@ + join_lines(issues, "; "@)
    }
}

/// The report for a loaded profile record.
pub fn profile_report(
    cfg: &ProfilesConfig,
    dotfiles: &DotfilesConfig,
    profile: &ProfileFile,
    actual_host: &str,
) -> (r: String)
    ensures
        r@ == profile_report_spec(cfg.active@, *profile, actual_host@, *dotfiles),
{
    let mut issues: Vec<String> = Vec::new();
    if let Some(n) = &profile.name {
        if !str_eq(n.as_str(), cfg.active.as_str()) {
            let mut m = concat("name is `", n.as_str());
            push_str(&mut m, "`, expected `");
            push_str(&mut m, cfg.active.as_str());
            push_str(&mut m, "`");
            issues.push(m);
        }
    }
    let ghost s1 = views(issues@);
    if let Some(h) = &profile.hostname {
        if !str_eq(h.as_str(), actual_host) {
            let mut m = concat("hostname is `", actual_host);
            push_str(&mut m, "`, expected `");
            push_str(&mut m, h.as_str());
            push_str(&mut m, "`");
            issues.push(m);
        }
    }
    let ghost s2 = views(issues@);
    if let Some(m) = &profile.public_manifest {
        if !str_eq(m.as_str(), dotfiles.public_manifest.as_str()) {
            issues.push("public manifest does not match active daemon config".to_owned());
        }
    }
    let ghost s3 = views(issues@);
    if let Some(m) = &profile.private_manifest {
        if !str_eq(m.as_str(), dotfiles.private_manifest.as_str()) {
            issues.push("private manifest does not match active daemon config".to_owned());
        }
    }
    proof {
        let expect = profile_issues(cfg.active@, *profile, actual_host@, *dotfiles);
        assert(views(issues@) =~= expect);
    }
    if issues.len() == 0 {
        "profile: healthy".to_owned()
    } else {
        let mut r = concat("profile `", cfg.active.as_str());
        push_str(&mut r, "`: ");
        let j = join(&issues, "; ");
        push_str(&mut r, j.as_str());
        r
    }
}

/// What a tick does with the profile report: nothing when unchanged;
/// otherwise record it (unless a dry run) and, when reminders are on,
/// notify "needs attention" for a problem report or "restored" when a
/// healthy report follows an earlier one.
pub fn report_change(
    previous: Option<&str>,
    report: &str,
    remind_on_mismatch: bool,
    dry_run: bool,
) -> (a: TickAction)
    ensures
        match previous {
            Some(p) if p@ == report@ => a.notify is None && !a.store,
            _ => {
                &&& a.store == !dry_run
                &&& if report@ == "profile: healthy"@ {
                    if previous is Some && remind_on_mismatch {
                        a.notify is Some && a.notify->0@ == "ApexDaemon: profile restored"@
                    } else {
                        a.notify is None
                    }
                } else if remind_on_mismatch {
                    a.notify is Some && a.notify->0@ == "ApexDaemon: profile needs attention"@
                } else {
                    a.notify is None
                }
            },
        },
{
    let unchanged = match previous {
        Some(p) => str_eq(p, report),
        None => false,
    };
    if unchanged {
        return TickAction { notify: None, store: false };
    }
    let notify = if str_eq(report, "profile: healthy") {
        if previous.is_some() && remind_on_mismatch {
            Some("ApexDaemon: profile restored".to_owned())
        } else {
            None
        }
    } else if remind_on_mismatch {
        Some("ApexDaemon: profile needs attention".to_owned())
    } else {
        None
    };
    TickAction { notify, store: !dry_run }
}

/// An element is in a concatenation exactly when it is in one of the parts.
pub(crate) proof fn lemma_concat_contains(a: Seq<Seq<char>>, b: Seq<Seq<char>>, x: Seq<char>)
    ensures
        (a + b).contains(x) <==> (a.contains(x) || b.contains(x)),
{
    if a.contains(x) {
        let i = choose|i: int| 0 <= i < a.len() && a[i] == x;
        assert((a + b)[i] == x);
    }
    if b.contains(x) {
        let i = choose|i: int| 0 <= i < b.len() && b[i] == x;
        assert((a + b)[a.len() + i] == x);
    }
    if (a + b).contains(x) {
        let i = choose|i: int| 0 <= i < (a + b).len() && (a + b)[i] == x;
        if i < a.len() {
            assert(a[i] == x);
        } else {
            assert(b[i - a.len()] == x);
        }
    }
}

/// The profile is reported healthy exactly when every field it sets
/// agrees with the running daemon: its name with the active profile, its
/// hostname with the machine's, and each manifest path with the dotfiles
/// configuration. A manifest mismatch is reported exactly when the profile
/// sets that manifest to another path than the daemon's, and the public
/// and private manifests are each held against their own setting.
pub proof fn law_profile_healthy_iff_all_agree(
    active: Seq<char>,
    profile: ProfileFile,
    actual_host: Seq<char>,
    dotfiles: DotfilesConfig,
)
    ensures
        (profile_report_spec(active, profile, actual_host, dotfiles) == "profile: healthy"@) <==> (
        (match profile.name {
            Some(n) => n@ == active,
            None => true,
        }) && (match profile.hostname {
            Some(h) => h@ == actual_host,
            None => true,
        }) && (match profile.public_manifest {
            Some(m) => m@ == dotfiles.public_manifest@,
            None => true,
        }) && (match profile.private_manifest {
            Some(m) => m@ == dotfiles.private_manifest@,
            None => true,
        })),
        profile_issues(active, profile, actual_host, dotfiles).contains(
            "private manifest does not match active daemon config"@,
        ) <==> (match profile.private_manifest {
            Some(m) => m@ != dotfiles.private_manifest@,
            None => false,
        }),
        profile_issues(active, profile, actual_host, dotfiles).contains(
            "public manifest does not match active daemon config"@,
        ) <==> (match profile.public_manifest {
            Some(m) => m@ != dotfiles.public_manifest@,
            None => false,
        }),
{
    reveal_strlit("profile: healthy");
    reveal_strlit("profile `");
    reveal_strlit("private manifest does not match active daemon config");
    reveal_strlit("public manifest does not match active daemon config");
    reveal_strlit("name is `");
    reveal_strlit("hostname is `");
    let priv_msg = "private manifest does not match active daemon config"@;
    let pub_msg = "public manifest does not match active daemon config"@;
    let a = match profile.name {
        Some(n) if n@ != active => seq!["name is `"@ + n@ + "`, expected `"@ + active + "`"@],
        _ => Seq::<Seq<char>>::empty(),
    };
    let b = match profile.hostname {
        Some(h) if h@ != actual_host => seq![
            "hostname is `"@ + actual_host + "`, expected `"@ + h@ + "`"@,
        ],
        _ => Seq::<Seq<char>>::empty(),
    };
    let c = mismatch(profile.public_manifest, dotfiles.public_manifest@, pub_msg);
    let d = mismatch(profile.private_manifest, dotfiles.private_manifest@, priv_msg);
    let issues = profile_issues(active, profile, actual_host, dotfiles);
    assert(issues == a + b + c + d);
    // No name or hostname issue reads like a manifest issue: they start
    // with `n` and `h`, the manifest ones with `p`.
    if a.len() > 0 {
        assert(a[0][0] == 'n');
    }
    if b.len() > 0 {
        assert(b[0][0] == 'h');
    }
    assert(priv_msg[0] == 'p' && pub_msg[0] == 'p' && priv_msg[1] != pub_msg[1]);
    lemma_concat_contains(a + b + c, d, priv_msg);
    lemma_concat_contains(a + b, c, priv_msg);
    lemma_concat_contains(a, b, priv_msg);
    lemma_concat_contains(a + b + c, d, pub_msg);
    lemma_concat_contains(a + b, c, pub_msg);
    lemma_concat_contains(a, b, pub_msg);
    if a.contains(priv_msg) || a.contains(pub_msg) {
        assert(a[0] == priv_msg || a[0] == pub_msg);
    }
    if b.contains(priv_msg) || b.contains(pub_msg) {
        assert(b[0] == priv_msg || b[0] == pub_msg);
    }
    if c.contains(priv_msg) {
        assert(c[0] == priv_msg);
    }
    if d.contains(pub_msg) {
        assert(d[0] == pub_msg);
    }
    if c.len() > 0 {
        assert(c[0] == pub_msg);
        assert(c.contains(pub_msg));
    }
    if d.len() > 0 {
        assert(d[0] == priv_msg);
        assert(d.contains(priv_msg));
    }
    let r = profile_report_spec(active, profile, actual_host, dotfiles);
    if issues.len() > 0 {
        let t = "profile `"@ + active + "`: "@ + join_lines(issues, "; "@);
        assert(t[7] == ' ');
        assert("profile: healthy"@[7] == ':');
    }
}


/// A profile naming another profile than the active one is reported as
/// "name is `<its name>`, expected `<active>`", and one naming another
/// machine as "hostname is `<this machine>`, expected `<its hostname>`";
/// neither is reported when the field agrees.
pub proof fn law_profile_name_and_host_issues(
    active: Seq<char>,
    profile: ProfileFile,
    actual_host: Seq<char>,
    dotfiles: DotfilesConfig,
)
    ensures
        profile.name matches Some(n) ==> (profile_issues(active, profile, actual_host, dotfiles).contains(
            "name is `"@ + n@ + "`, expected `"@ + active + "`"@,
        ) <==> n@ != active),
        profile.hostname matches Some(h) ==> (profile_issues(
            active,
            profile,
            actual_host,
            dotfiles,
        ).contains("hostname is `"@ + actual_host + "`, expected `"@ + h@ + "`"@) <==> h@
            != actual_host),
{
    reveal_strlit("private manifest does not match active daemon config");
    reveal_strlit("public manifest does not match active daemon config");
    reveal_strlit("name is `");
    reveal_strlit("hostname is `");
    let priv_msg = "private manifest does not match active daemon config"@;
    let pub_msg = "public manifest does not match active daemon config"@;
    let a = match profile.name {
        Some(n) if n@ != active => seq!["name is `"@ + n@ + "`, expected `"@ + active + "`"@],
        _ => Seq::<Seq<char>>::empty(),
    };
    let b = match profile.hostname {
        Some(h) if h@ != actual_host => seq![
            "hostname is `"@ + actual_host + "`, expected `"@ + h@ + "`"@,
        ],
        _ => Seq::<Seq<char>>::empty(),
    };
    let c = mismatch(profile.public_manifest, dotfiles.public_manifest@, pub_msg);
    let d = mismatch(profile.private_manifest, dotfiles.private_manifest@, priv_msg);
    let issues = profile_issues(active, profile, actual_host, dotfiles);
    assert(issues == a + b + c + d);
    if c.len() > 0 {
        assert(c[0] == pub_msg);
    }
    if d.len() > 0 {
        assert(d[0] == priv_msg);
    }
    if let Some(n) = profile.name {
        let x = "name is `"@ + n@ + "`, expected `"@ + active + "`"@;
        assert(x[0] == 'n');
        lemma_concat_contains(a + b + c, d, x);
        lemma_concat_contains(a + b, c, x);
        lemma_concat_contains(a, b, x);
        if b.contains(x) {
            assert(b[0][0] == 'h');
        }
        if c.contains(x) {
            assert(c[0][0] == 'p');
        }
        if d.contains(x) {
            assert(d[0][0] == 'p');
        }
        if n@ != active {
            assert(a[0] == x);
        }
    }
    if let Some(h) = profile.hostname {
        let x = "hostname is `"@ + actual_host + "`, expected `"@ + h@ + "`"@;
        assert(x[0] == 'h');
        lemma_concat_contains(a + b + c, d, x);
        lemma_concat_contains(a + b, c, x);
        lemma_concat_contains(a, b, x);
        if a.contains(x) {
            assert(a[0][0] == 'n');
        }
        if c.contains(x) {
            assert(c[0][0] == 'p');
        }
        if d.contains(x) {
            assert(d[0][0] == 'p');
        }
        if h@ != actual_host {
            assert(b[0] == x);
        }
    }
}

} // verus!
