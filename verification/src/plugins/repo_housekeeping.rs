//! Periodic repository housekeeping: which repositories to scan, what
//! needs attention in them, and the watch list of GitHub issues and pull
//! requests. The binary walks directories, runs git and `gh`.

use vstd::prelude::*;
use crate::config::AppConfig;
use crate::text::{
    chars_of, concat, decimal, join, join_spec, push_str, str_eq, string_of_range, trim,
    trim_spec, usize_to_string, views,
};

verus! {

pub struct RepoHousekeepingPlugin;

impl RepoHousekeepingPlugin {
    pub fn name(&self) -> (r: &'static str)
        ensures
            r@ == "repo-housekeeping"@,
    {
        "repo-housekeeping"
    }

    /// Seconds between two scans: the configured interval, at least 300.
    pub fn period_secs(&self, cfg: &AppConfig) -> (r: u64)
        ensures
            r == if cfg.repo_housekeeping.interval_secs < 300 {
                300
            } else {
                cfg.repo_housekeeping.interval_secs
            },
    {
        if cfg.repo_housekeeping.interval_secs < 300 {
            300
        } else {
            cfg.repo_housekeeping.interval_secs
        }
    }
}

pub fn default_depth() -> (n: usize)
    ensures
        n == 4,
{
    4
}

/// cyberfleet's repository settings, read from its own config file.
#[derive(Debug)]
pub struct CyberfleetConfig {
    pub roots: Vec<String>,
    pub ignore: Vec<String>,
    pub max_depth: usize,
}

/// What the binary found at cyberfleet's config path.
pub enum CyberfleetSource {
    /// No file there.
    Absent,
    /// A file that could not be read or parsed.
    Unreadable,
    /// The file's settings.
    Parsed(CyberfleetConfig),
}

/// Where to look for repositories.
pub struct RepoSources {
    pub roots: Vec<String>,
    pub ignore: Vec<String>,
    pub max_depth: usize,
    /// Whether the roots came from cyberfleet's config.
    pub from_cyberfleet: bool,
}

fn copy_list(v: &Vec<String>) -> (r: Vec<String>)
    ensures
        views(r@) == views(v@),
{
    let mut r: Vec<String> = Vec::new();
    let mut i: usize = 0;
    while i < v.len()
        invariant
            i <= v.len(),
            views(r@) == views(v@).take(i as int),
        decreases v.len() - i,
    {
        let ghost before = views(r@);
        r.push(v[i].clone());
        assert(views(r@) =~= before.push(v@[i as int]@));
        assert(views(v@).take(i + 1) =~= views(v@).take(i as int).push(v@[i as int]@));
        i = i + 1;
    }
    assert(views(v@).take(v@.len() as int) =~= views(v@));
    r
}

/// When cyberfleet's config exists it is the one source of repositories:
/// its roots, ignore list and depth are used as they are (even with no
/// roots), and a file that cannot be read gives no roots at all. Only when
/// there is no such file are this config's fallback roots walked, with no
/// ignore list and the default depth.
pub fn repo_sources(cyberfleet: CyberfleetSource, fallback_roots: &Vec<String>) -> (r: RepoSources)
    ensures
        match cyberfleet {
            CyberfleetSource::Parsed(c) => r.from_cyberfleet && r.roots@ == c.roots@ && r.ignore@
                == c.ignore@ && r.max_depth == c.max_depth,
            CyberfleetSource::Unreadable => !r.from_cyberfleet && r.roots@.len() == 0
                && r.ignore@.len() == 0 && r.max_depth == 4,
            CyberfleetSource::Absent => !r.from_cyberfleet && views(r.roots@) == views(
                fallback_roots@,
            ) && r.ignore@.len() == 0 && r.max_depth == 4,
        },
{
    match cyberfleet {
        CyberfleetSource::Parsed(c) => RepoSources {
            roots: c.roots,
            ignore: c.ignore,
            max_depth: c.max_depth,
            from_cyberfleet: true,
        },
        CyberfleetSource::Unreadable => RepoSources {
            roots: Vec::new(),
            ignore: Vec::new(),
            max_depth: default_depth(),
            from_cyberfleet: false,
        },
        CyberfleetSource::Absent => RepoSources {
            roots: copy_list(fallback_roots),
            ignore: Vec::new(),
            max_depth: default_depth(),
            from_cyberfleet: false,
        },
    }
}

/// What the walk does at one directory.
pub enum WalkStep {
    /// It holds a `.git` entry: record it as a repository and go no deeper.
    Repository,
    /// No depth left: stop here.
    Stop,
    /// Look at its sub-directories, with this much depth left.
    Descend(usize),
}

/// A directory with a `.git` entry is a repository and is not descended
/// into (nested repositories are not looked for); otherwise its
/// sub-directories are walked while depth is left.
pub fn walk_step(has_git: bool, depth_left: usize) -> (s: WalkStep)
    ensures
        has_git ==> s is Repository,
        !has_git && depth_left == 0 ==> s is Stop,
        !has_git && depth_left > 0 ==> s == WalkStep::Descend((depth_left - 1) as usize),
{
    if has_git {
        WalkStep::Repository
    } else if depth_left == 0 {
        WalkStep::Stop
    } else {
        WalkStep::Descend(depth_left - 1)
    }
}

/// A directory entry the walk does not descend into: hidden ones and those
/// named in the ignore list.
pub open spec fn skip_dir_spec(name: Seq<char>, ignore: Seq<Seq<char>>) -> bool {
    (name.len() > 0 && name[0] == '.') || ignore.contains(name)
}

pub fn skip_dir_name(name: &str, ignore: &Vec<String>) -> (b: bool)
    ensures
        b == skip_dir_spec(name@, views(ignore@)),
{
    let v = chars_of(name);
    if v.len() > 0 && v[0] == '.' {
        return true;
    }
    let mut i: usize = 0;
    while i < ignore.len()
        invariant
            i <= ignore.len(),
            forall|k: int| 0 <= k < i ==> #[trigger] ignore@[k]@ != name@,
        decreases ignore.len() - i,
    {
        if str_eq(ignore[i].as_str(), name) {
            assert(views(ignore@)[i as int] == name@);
            return true;
        }
        i = i + 1;
    }
    proof {
        if views(ignore@).contains(name@) {
            let k = choose|k: int| 0 <= k < views(ignore@).len() && views(ignore@)[k] == name@;
            assert(ignore@[k]@ == name@);
        }
    }
    false
}

/// The parts of a repository's status line, in order.
pub open spec fn attention_parts(dirty: nat, ahead: nat, behind: nat) -> Seq<Seq<char>> {
    (if dirty > 0 {
        seq![decimal(dirty) + " dirty"@]
    } else {
        Seq::empty()
    }) + (if ahead > 0 {
        seq![decimal(ahead) + " ahead"@]
    } else {
        Seq::empty()
    }) + (if behind > 0 {
        seq![decimal(behind) + " behind"@]
    } else {
        Seq::empty()
    })
}

/// `<repo>: <n> dirty, <n> ahead, <n> behind` (zero counts left out), or
/// nothing when the repository is clean and in sync.
pub fn attention_line(name: &str, dirty: usize, ahead: usize, behind: usize) -> (r: Option<String>)
    ensures
        (dirty == 0 && ahead == 0 && behind == 0) == r is None,
        r is Some ==> r->0@ == name@ + ": "@ + join_spec(
            attention_parts(dirty as nat, ahead as nat, behind as nat),
            ", "@,
        ),
{
    if dirty == 0 && ahead == 0 && behind == 0 {
        return None;
    }
    let mut parts: Vec<String> = Vec::new();
    if dirty > 0 {
        parts.push(concat(usize_to_string(dirty).as_str(), " dirty"));
    }
    let ghost p1 = views(parts@);
    if ahead > 0 {
        parts.push(concat(usize_to_string(ahead).as_str(), " ahead"));
    }
    let ghost p2 = views(parts@);
    if behind > 0 {
        parts.push(concat(usize_to_string(behind).as_str(), " behind"));
    }
    assert(views(parts@) =~= attention_parts(dirty as nat, ahead as nat, behind as nat));
    let mut r = concat(name, ": ");
    push_str(&mut r, join(&parts, ", ").as_str());
    Some(r)
}

/// The log header and the notification body for the repositories that
/// need attention.
pub fn attention_summary(lines: &Vec<String>) -> (r: (String, String))
    ensures
        r.0@ == "[repo-housekeeping] "@ + decimal(lines@.len() as nat) + " repo(s) need attention:"@,
        r.1@ == decimal(lines@.len() as nat) + " repo(s): "@ + join_spec(views(lines@), "; "@),
{
    let n = usize_to_string(lines.len());
    let mut head = concat("[repo-housekeeping] ", n.as_str());
    push_str(&mut head, " repo(s) need attention:");
    let mut body = concat(n.as_str(), " repo(s): ");
    push_str(&mut body, join(lines, "; ").as_str());
    (head, body)
}

/// `owner/repo#123` split at its first `#` into the repository and the
/// issue or pull-request number; no `#` means a malformed entry.
pub fn parse_watch_spec(spec: &str) -> (r: Option<(String, String)>)
    ensures
        match r {
            Some((repo, number)) => repo@ + "#"@ + number@ == spec@ && !repo@.contains('#'),
            None => !spec@.contains('#'),
        },
{
    let v = chars_of(spec);
    let mut i: usize = 0;
    while i < v.len()
        invariant
            i <= v.len(),
            v@ == spec@,
            forall|k: int| 0 <= k < i ==> v@[k] != '#',
        decreases v.len() - i,
    {
        if v[i] == '#' {
            let repo = string_of_range(&v, 0, i);
            let number = string_of_range(&v, i + 1, v.len());
            proof {
                reveal_strlit("#");
                assert(repo@ + "#"@ + number@ =~= spec@);
                assert(!repo@.contains('#')) by {
                    if repo@.contains('#') {
                        let k = choose|k: int| 0 <= k < repo@.len() && repo@[k] == '#';
                        assert(v@[k] == '#');
                    }
                }
            }
            return Some((repo, number));
        }
        i = i + 1;
    }
    None
}

/// The state-store key remembering a watched entry's last seen state.
pub fn watch_key(repo: &str, number: &str) -> (r: String)
    ensures
        r@ == "repo_watch_"@ + repo@ + "_"@ + number@,
{
    let mut r = concat("repo_watch_", repo);
    push_str(&mut r, "_");
    push_str(&mut r, number);
    r
}

/// The `gh` arguments that read a watched issue's or PR's state.
pub fn watch_query_args(repo: &str, number: &str) -> (r: Vec<String>)
    ensures
        views(r@) == seq![
            "api"@,
            "repos/"@ + repo@ + "/issues/"@ + number@,
            "--jq"@,
            ".state"@,
        ],
{
    let mut endpoint = concat("repos/", repo);
    push_str(&mut endpoint, "/issues/");
    push_str(&mut endpoint, number);
    let mut r: Vec<String> = Vec::new();
    r.push("api".to_owned());
    r.push(endpoint);
    r.push("--jq".to_owned());
    r.push(".state".to_owned());
    proof {
        assert(views(r@) =~= seq![
            "api"@,
            "repos/"@ + repo@ + "/issues/"@ + number@,
            "--jq"@,
            ".state"@,
        ]);
    }
    r
}

/// The state reported by `gh` (its trimmed output), when there is one.
pub fn reported_state(stdout: &str) -> (r: Option<String>)
    ensures
        trim_spec(stdout@).len() == 0 ==> r is None,
        trim_spec(stdout@).len() > 0 ==> r is Some && r->0@ == trim_spec(stdout@),
{
    let t = trim(stdout);
    if t.as_str().is_empty() {
        None
    } else {
        Some(t)
    }
}

/// What a newly read state of a watched entry leads to.
pub struct WatchUpdate {
    /// The body of an "ApexDaemon: PR/issue update" notification.
    pub notify: Option<String>,
    /// Whether to record the new state.
    pub store: bool,
}

/// A state different from the recorded one is recorded, and announced
/// unless nothing was recorded before; an unchanged state changes nothing.
pub fn watch_update(prior: Option<&str>, state: &str, spec: &str) -> (u: WatchUpdate)
    ensures
        match prior {
            Some(p) if p@ == state@ => u.notify is None && !u.store,
            Some(_) => u.store && u.notify is Some && u.notify->0@ == spec@ + " is now "@
                + state@,
            None => u.store && u.notify is None,
        },
{
    match prior {
        Some(p) => {
            if str_eq(p, state) {
                WatchUpdate { notify: None, store: false }
            } else {
                let mut body = concat(spec, " is now ");
                push_str(&mut body, state);
                WatchUpdate { notify: Some(body), store: true }
            }
        },
        None => WatchUpdate { notify: None, store: true },
    }
}

/// The log line for a watch-list entry without a `#`.
pub fn malformed_watch_line(spec: &str) -> (r: String)
    ensures
        r@ == "[repo-housekeeping] skipping malformed watch_prs entry: "@ + spec@,
{
    concat("[repo-housekeeping] skipping malformed watch_prs entry: ", spec)
}

/// A repository's status line names each non-zero count with its own
/// word, in the order dirty, ahead, behind, separated by `, `: commits
/// ahead of the upstream are called "ahead", commits behind it "behind",
/// uncommitted changes "dirty", and zero counts are left out.
pub proof fn law_attention_line_words(dirty: nat, ahead: nat, behind: nat)
    ensures
        ({
            let j = join_spec(attention_parts(dirty, ahead, behind), ", "@);
            let d = decimal(dirty) + " dirty"@;
            let a = decimal(ahead) + " ahead"@;
            let b = decimal(behind) + " behind"@;
            &&& dirty == 0 && ahead == 0 && behind == 0 ==> j == Seq::<char>::empty()
            &&& dirty > 0 && ahead == 0 && behind == 0 ==> j == d
            &&& dirty == 0 && ahead > 0 && behind == 0 ==> j == a
            &&& dirty == 0 && ahead == 0 && behind > 0 ==> j == b
            &&& dirty > 0 && ahead > 0 && behind == 0 ==> j == d + ", "@ + a
            &&& dirty > 0 && ahead == 0 && behind > 0 ==> j == d + ", "@ + b
            &&& dirty == 0 && ahead > 0 && behind > 0 ==> j == a + ", "@ + b
            &&& dirty > 0 && ahead > 0 && behind > 0 ==> j == d + ", "@ + a + ", "@ + b
        }),
{
    let p = attention_parts(dirty, ahead, behind);
    let d = decimal(dirty) + " dirty"@;
    let a = decimal(ahead) + " ahead"@;
    let b = decimal(behind) + " behind"@;
    let sep = ", "@;
    if dirty > 0 && ahead > 0 && behind > 0 {
        assert(p =~= seq![d, a, b]);
        lemma_join_pair(d, a, sep);
        assert(p.drop_last() =~= seq![d, a]);
        assert(join_spec(p, sep) == join_spec(seq![d, a], sep) + sep + b);
    } else if dirty > 0 && ahead > 0 {
        assert(p =~= seq![d, a]);
        lemma_join_pair(d, a, sep);
    } else if dirty > 0 && behind > 0 {
        assert(p =~= seq![d, b]);
        lemma_join_pair(d, b, sep);
    } else if ahead > 0 && behind > 0 {
        assert(p =~= seq![a, b]);
        lemma_join_pair(a, b, sep);
    } else if dirty > 0 {
        assert(p =~= seq![d]);
    } else if ahead > 0 {
        assert(p =~= seq![a]);
    } else if behind > 0 {
        assert(p =~= seq![b]);
    } else {
        assert(p =~= Seq::<Seq<char>>::empty());
    }
}

proof fn lemma_join_pair(x: Seq<char>, y: Seq<char>, sep: Seq<char>)
    ensures
        join_spec(seq![x, y], sep) == x + sep + y,
{
    let s = seq![x, y];
    assert(s.drop_last() =~= seq![x]);
    assert(join_spec(seq![x], sep) == x);
    assert(join_spec(s, sep) == join_spec(s.drop_last(), sep) + sep + s.last());
}

} // verus!
