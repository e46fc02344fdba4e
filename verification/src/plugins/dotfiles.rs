//! Read-only dotfiles doctor for the public and private bare repositories,
//! plus local snapshot/rollback planning.
//!
//! The doctor only inspects and reports. The manifests are the explicit
//! allow-list of files each repository is meant to track; everything the
//! doctor concludes is computed here from what the binary observed (git
//! output, manifest text, which files exist, file contents).

use vstd::prelude::*;
use crate::config::{AppConfig, DotfilesConfig, DotfilesSecurityConfig};
use crate::order::{
    byte_views, insert_sorted, is_sorted_bytes, is_sorted_set, lemma_sorted_set_unique, sort_names,
};
pub use crate::paths::is_safe_relative_path;
use crate::paths::{
    components, is_safe_name, is_safe_name_spec, is_safe_relative_spec, law_safe_join_stays_inside,
};
use crate::plugins::TickAction;
use crate::text::{
    char_index_of_byte, char_offset, chars_of, concat, contains, contains_spec, decimal, is_blank,
    is_boundary, join, join_spec, lemma_char_offset_unique, lines, lines_spec, push_str, str_eq,
    string_of_range, trim, trim_end, trim_end_spec, trim_spec, usize_to_string, views,
};

verus! {

pub struct DotfilesPlugin;

impl DotfilesPlugin {
    pub fn name(&self) -> (r: &'static str)
        ensures
            r@ == "dotfiles"@,
    {
        "dotfiles"
    }

    /// Seconds between two doctor runs: the configured interval, at least 30.
    pub fn period_secs(&self, cfg: &AppConfig) -> (r: u64)
        ensures
            r == if cfg.dotfiles.interval_secs < 30 {
                30
            } else {
                cfg.dotfiles.interval_secs
            },
    {
        if cfg.dotfiles.interval_secs < 30 {
            30
        } else {
            cfg.dotfiles.interval_secs
        }
    }
}

/// The findings for one repository.
#[derive(Debug)]
pub struct RepoReport {
    pub label: &'static str,
    pub issues: Vec<String>,
}

/// One report rendered as a line: `<label>: clean` or the issues joined
/// with `; `.
pub open spec fn render_spec(label: Seq<char>, issues: Seq<Seq<char>>) -> Seq<char> {
    if issues.len() == 0 {
        label + ": clean"@
    } else {
        label + ": "@ + join_spec(issues, "; "@)
    }
}

impl RepoReport {
    pub fn issue(&mut self, message: String)
        ensures
            final(self).label == old(self).label,
            final(self).issues@ == old(self).issues@.push(message),
    {
        self.issues.push(message);
    }

    pub fn render(&self) -> (r: String)
        ensures
            r@ == render_spec(self.label@, views(self.issues@)),
    {
        if self.issues.len() == 0 {
            concat(self.label, ": clean")
        } else {
            let mut r = concat(self.label, ": ");
            let j = join(&self.issues, "; ");
            push_str(&mut r, j.as_str());
            r
        }
    }
}

/// Each report rendered as one line.
pub open spec fn rendered_lines(reports: Seq<RepoReport>) -> Seq<Seq<char>> {
    Seq::new(reports.len(), |i: int| render_spec(reports[i].label@, views(reports[i].issues@)))
}

/// All reports rendered and joined with newlines.
pub fn render_all(reports: &Vec<RepoReport>) -> (r: String)
    ensures
        r@ == join_spec(rendered_lines(reports@), "\n"@),
{
    let mut lines: Vec<String> = Vec::new();
    let mut i: usize = 0;
    while i < reports.len()
        invariant
            i <= reports.len(),
            views(lines@) == rendered_lines(reports@).take(i as int),
        decreases reports.len() - i,
    {
        let line = reports[i].render();
        let ghost old_lines = views(lines@);
        lines.push(line);
        proof {
            assert(line@ == rendered_lines(reports@)[i as int]);
            assert(views(lines@) =~= old_lines.push(line@));
            assert(views(lines@) =~= rendered_lines(reports@).take(i + 1));
        }
        i = i + 1;
    }
    assert(rendered_lines(reports@).take(reports@.len() as int) =~= rendered_lines(reports@));
    join(&lines, "\n")
}

/// Whether any report has an issue.
pub fn any_issues(reports: &Vec<RepoReport>) -> (b: bool)
    ensures
        b == exists|i: int| 0 <= i < reports@.len() && #[trigger] reports@[i].issues@.len() > 0,
{
    let mut i: usize = 0;
    while i < reports.len()
        invariant
            i <= reports.len(),
            forall|k: int| 0 <= k < i ==> #[trigger] reports@[k].issues@.len() == 0,
        decreases reports.len() - i,
    {
        if reports[i].issues.len() > 0 {
            return true;
        }
        i = i + 1;
    }
    false
}

/// What the doctor's tick does with a freshly rendered report: notify and
/// record it only when it differs from the stored one. A changed report
/// with issues raises "need attention"; a changed clean report raises
/// "healthy" only when there was an earlier report; the report is recorded
/// unless this is a dry run.
pub fn report_change(
    previous: Option<&str>,
    report: &str,
    has_issues: bool,
    dry_run: bool,
) -> (a: TickAction)
    ensures
        match previous {
            Some(p) if p@ == report@ => a.notify is None && !a.store,
            _ => {
                &&& a.store == !dry_run
                &&& if has_issues {
                    a.notify is Some && a.notify->0@ == "ApexDaemon: dotfiles need attention"@
                } else if previous is Some {
                    a.notify is Some && a.notify->0@ == "ApexDaemon: dotfiles healthy"@
                } else {
                    a.notify is None
                }
            },
        },
{
    let unchanged = match previous {
        Some(p) => str_eq(p, report),
        None => false,
    };
    if unchanged {
        return TickAction { notify: None, store: false };
    }
    let notify = if has_issues {
        Some("ApexDaemon: dotfiles need attention".to_owned())
    } else if previous.is_some() {
        Some("ApexDaemon: dotfiles healthy".to_owned())
    } else {
        None
    };
    TickAction { notify, store: !dry_run }
}

/// The notice printed when the reserved write switches are set.
pub fn reserved_write_notice(cfg: &DotfilesConfig) -> (r: Option<String>)
    ensures
        r is Some == (cfg.auto_commit || cfg.auto_push),
        r is Some ==> r->0@
            == "[dotfiles] auto_commit/auto_push are reserved for a later slice; no write action taken"@,
{
    if cfg.auto_commit || cfg.auto_push {
        Some(
            "[dotfiles] auto_commit/auto_push are reserved for a later slice; no write action taken".to_owned(),
        )
    } else {
        None
    }
}

/// The path shown for one `git status --porcelain` line: the text after the
/// two status columns and the space (byte offset 3), trimmed; the whole
/// line, trimmed, when byte offset 3 is not a character boundary.
pub open spec fn status_path_spec(line: Seq<char>) -> Seq<char> {
    if is_boundary(line, 3) {
        trim_spec(line.skip(char_offset(line, 3)))
    } else {
        trim_spec(line)
    }
}

pub fn status_path(line: &str) -> (r: String)
    ensures
        r@ == status_path_spec(line@),
{
    let v = chars_of(line);
    match char_index_of_byte(&v, 3) {
        Some(k) => {
            proof {
                lemma_char_offset_unique(line@, 3, k as int);
            }
            let rest = string_of_range(&v, k, v.len());
            assert(rest@ =~= line@.skip(k as int));
            trim(rest.as_str())
        },
        None => trim(line),
    }
}

/// Whether a tracked path matches one exclude pattern: `prefix*` matches by
/// prefix, `*suffix` by suffix, `dir/` the directory and everything under
/// it, and any other pattern the path itself or everything under it.
pub open spec fn exclude_matches(path: Seq<char>, pattern: Seq<char>) -> bool {
    if pattern.len() > 0 && pattern.last() == '*' {
        pattern.drop_last().is_prefix_of(path)
    } else if pattern.len() > 0 && pattern[0] == '*' {
        pattern.drop_first().is_suffix_of(path)
    } else if pattern.len() > 0 && pattern.last() == '/' {
        path == pattern.drop_last() || pattern.is_prefix_of(path)
    } else {
        path == pattern || (pattern + seq!['/']).is_prefix_of(path)
    }
}

pub open spec fn matches_any_exclude(path: Seq<char>, patterns: Seq<Seq<char>>) -> bool {
    exists|i: int| 0 <= i < patterns.len() && exclude_matches(path, #[trigger] patterns[i])
}

fn exclude_matches_one(path: &str, pattern: &str) -> (b: bool)
    ensures
        b == exclude_matches(path@, pattern@),
{
    let pv = chars_of(pattern);
    let n = pv.len();
    if n > 0 && pv[n - 1] == '*' {
        let prefix = string_of_range(&pv, 0, n - 1);
        assert(prefix@ =~= pattern@.drop_last());
        crate::text::starts_with(path, prefix.as_str())
    } else if n > 0 && pv[0] == '*' {
        let suffix = string_of_range(&pv, 1, n);
        assert(suffix@ =~= pattern@.drop_first());
        crate::text::ends_with(path, suffix.as_str())
    } else if n > 0 && pv[n - 1] == '/' {
        let prefix = string_of_range(&pv, 0, n - 1);
        assert(prefix@ =~= pattern@.drop_last());
        str_eq(path, prefix.as_str()) || crate::text::starts_with(path, pattern)
    } else {
        let mut with_slash = pattern.to_owned();
        with_slash.push('/');
        str_eq(path, pattern) || crate::text::starts_with(path, with_slash.as_str())
    }
}

/// Whether `path` matches any of the exclude `patterns`.
pub fn matches_exclude(path: &str, patterns: &Vec<String>) -> (b: bool)
    ensures
        b == matches_any_exclude(path@, views(patterns@)),
{
    let mut i: usize = 0;
    while i < patterns.len()
        invariant
            i <= patterns.len(),
            forall|k: int| 0 <= k < i ==> !exclude_matches(path@, #[trigger] patterns@[k]@),
        decreases patterns.len() - i,
    {
        if exclude_matches_one(path, patterns[i].as_str()) {
            assert(views(patterns@)[i as int] == patterns@[i as int]@);
            return true;
        }
        i = i + 1;
    }
    proof {
        assert forall|k: int| 0 <= k < patterns@.len() implies !exclude_matches(
            path@,
            #[trigger] views(patterns@)[k],
        ) by {
            assert(views(patterns@)[k] == patterns@[k]@);
        }
    }
    false
}

/// The entries of a manifest: each line trimmed, blank lines and `#`
/// comments dropped.
pub open spec fn manifest_entries_spec(contents: Seq<char>) -> Seq<Seq<char>> {
    lines_spec(contents).map_values(|l: Seq<char>| trim_spec(l)).filter(
        |l: Seq<char>| l.len() > 0 && l[0] != '#',
    )
}

pub fn parse_manifest(contents: &str) -> (r: Vec<String>)
    ensures
        views(r@) == manifest_entries_spec(contents@),
{
    let ls = lines(contents);
    let ghost trimmed = lines_spec(contents@).map_values(|l: Seq<char>| trim_spec(l));
    let ghost keep = |l: Seq<char>| l.len() > 0 && l[0] != '#';
    let mut out: Vec<String> = Vec::new();
    let mut i: usize = 0;
    while i < ls.len()
        invariant
            i <= ls.len(),
            views(ls@) == lines_spec(contents@),
            trimmed == lines_spec(contents@).map_values(|l: Seq<char>| trim_spec(l)),
            keep == (|l: Seq<char>| l.len() > 0 && l[0] != '#'),
            views(out@) == trimmed.take(i as int).filter(keep),
        decreases ls.len() - i,
    {
        let t = trim(ls[i].as_str());
        let tv = chars_of(t.as_str());
        proof {
            assert(trimmed[i as int] == t@) by {
                assert(views(ls@)[i as int] == ls@[i as int]@);
            }
            assert(trimmed.take(i + 1).drop_last() =~= trimmed.take(i as int));
            trimmed.take(i as int).lemma_filter_push(t@, keep);
            assert(trimmed.take(i + 1) =~= trimmed.take(i as int).push(t@));
        }
        if tv.len() > 0 && tv[0] != '#' {
            out.push(t);
            assert(views(out@) =~= trimmed.take(i as int).filter(keep).push(tv@));
        }
        i = i + 1;
    }
    assert(trimmed.take(ls@.len() as int) =~= trimmed);
    out
}

/// The lines of git's output with trailing whitespace removed, empty ones
/// dropped.
pub open spec fn output_lines_spec(text: Seq<char>) -> Seq<Seq<char>> {
    lines_spec(text).map_values(|l: Seq<char>| trim_end_spec(l)).filter(
        |l: Seq<char>| l.len() > 0,
    )
}

pub fn output_lines(text: &str) -> (r: Vec<String>)
    ensures
        views(r@) == output_lines_spec(text@),
{
    let ls = lines(text);
    let ghost trimmed = lines_spec(text@).map_values(|l: Seq<char>| trim_end_spec(l));
    let ghost keep = |l: Seq<char>| l.len() > 0;
    let mut out: Vec<String> = Vec::new();
    let mut i: usize = 0;
    while i < ls.len()
        invariant
            i <= ls.len(),
            views(ls@) == lines_spec(text@),
            trimmed == lines_spec(text@).map_values(|l: Seq<char>| trim_end_spec(l)),
            keep == (|l: Seq<char>| l.len() > 0),
            views(out@) == trimmed.take(i as int).filter(keep),
        decreases ls.len() - i,
    {
        let t = trim_end(ls[i].as_str());
        proof {
            assert(trimmed[i as int] == t@) by {
                assert(views(ls@)[i as int] == ls@[i as int]@);
            }
            trimmed.take(i as int).lemma_filter_push(t@, keep);
            assert(trimmed.take(i + 1) =~= trimmed.take(i as int).push(t@));
        }
        if !t.as_str().is_empty() {
            out.push(t);
            assert(views(out@) =~= trimmed.take(i as int).filter(keep).push(t@));
        }
        i = i + 1;
    }
    assert(trimmed.take(ls@.len() as int) =~= trimmed);
    out
}

/// The error reported when a git command exits unsuccessfully: the
/// command's arguments, and git's trimmed stderr when it said anything.
pub open spec fn git_failure_spec(args: Seq<char>, stderr: Seq<char>) -> Seq<char> {
    let e = trim_spec(stderr);
    "git "@ + args + " failed"@ + if e.len() == 0 {
        Seq::empty()
    } else {
        ": "@ + e
    }
}

pub fn git_failure_message(args: &Vec<String>, stderr: &str) -> (r: String)
    ensures
        r@ == git_failure_spec(join_spec(views(args@), " "@), stderr@),
{
    let e = trim(stderr);
    let a = join(args, " ");
    let mut r = concat("git ", a.as_str());
    push_str(&mut r, " failed");
    if !e.as_str().is_empty() {
        push_str(&mut r, ": ");
        push_str(&mut r, e.as_str());
        assert(r@ =~= git_failure_spec(join_spec(views(args@), " "@), stderr@));
    } else {
        assert(r@ =~= git_failure_spec(join_spec(views(args@), " "@), stderr@));
    }
    r
}

} // verus!

verus! {

/// Some line of `ls` contains `p`.
pub open spec fn any_line_has(ls: Seq<Seq<char>>, p: Seq<char>) -> bool {
    exists|i: int| 0 <= i < ls.len() && contains_spec(#[trigger] ls[i], p)
}

/// Some line of `ls` contains both `p` and `q`.
pub open spec fn any_line_has_both(ls: Seq<Seq<char>>, p: Seq<char>, q: Seq<char>) -> bool {
    exists|i: int| 0 <= i < ls.len() && contains_spec(#[trigger] ls[i], p) && contains_spec(ls[i], q)
}

pub open spec fn label_if(b: bool, label: Seq<char>) -> Seq<Seq<char>> {
    if b {
        seq![label]
    } else {
        Seq::empty()
    }
}

/// The kinds of secret-like material found in `contents`, in their sorted
/// order, each named once. Only the kind is ever reported, never the text
/// that matched.
pub open spec fn secret_labels_spec(contents: Seq<char>) -> Seq<Seq<char>> {
    let ls = lines_spec(contents);
    label_if(
        any_line_has(ls, "AWS_ACCESS_KEY_ID="@) || any_line_has(ls, "AWS_SECRET_ACCESS_KEY="@),
        "AWS credential"@,
    ) + label_if(
        any_line_has(ls, "DISCORD_TOKEN="@) || any_line_has(ls, "DISCORD_WEBHOOK"@),
        "Discord credential"@,
    ) + label_if(any_line_has(ls, "ghp_"@) || any_line_has(ls, "github_pat_"@), "GitHub token"@)
        + label_if(
        any_line_has(ls, "AIzaSy"@) || any_line_has(ls, "GEMINI_API_KEY="@),
        "Google/Gemini API key"@,
    ) + label_if(
        any_line_has(ls, "sk-or-"@) || any_line_has(ls, "OPENROUTER_API_KEY="@),
        "OpenRouter key"@,
    ) + label_if(any_line_has_both(ls, "-----BEGIN"@, "PRIVATE KEY-----"@), "private key"@)
}

/// Looking at one more line: a pattern occurs in the first `i + 1` lines
/// when it occurs in the first `i` or in line `i`.
proof fn lemma_any_line_step(lv: Seq<Seq<char>>, i: int)
    requires
        0 <= i < lv.len(),
    ensures
        forall|p: Seq<char>| #[trigger]
            any_line_has(lv.take(i + 1), p) == (any_line_has(lv.take(i), p) || contains_spec(
                lv[i],
                p,
            )),
{
    let t = lv.take(i);
    let t1 = lv.take(i + 1);
    assert forall|p: Seq<char>| #[trigger]
        any_line_has(t1, p) == (any_line_has(t, p) || contains_spec(lv[i], p)) by {
        if any_line_has(t1, p) {
            let k = choose|k: int| 0 <= k < t1.len() && contains_spec(#[trigger] t1[k], p);
            if k < t.len() {
                assert(t[k] == t1[k]);
            }
        }
        if any_line_has(t, p) {
            let k = choose|k: int| 0 <= k < t.len() && contains_spec(#[trigger] t[k], p);
            assert(t1[k] == t[k]);
        }
        if contains_spec(lv[i], p) {
            assert(t1[i] == lv[i]);
        }
    }
}

proof fn lemma_any_line_both_step(lv: Seq<Seq<char>>, i: int, p: Seq<char>, q: Seq<char>)
    requires
        0 <= i < lv.len(),
    ensures
        any_line_has_both(lv.take(i + 1), p, q) == (any_line_has_both(lv.take(i), p, q) || (
        contains_spec(lv[i], p) && contains_spec(lv[i], q))),
{
    let t = lv.take(i);
    let t1 = lv.take(i + 1);
    if any_line_has_both(t1, p, q) {
        let k = choose|k: int|
            0 <= k < t1.len() && contains_spec(#[trigger] t1[k], p) && contains_spec(t1[k], q);
        if k < t.len() {
            assert(t[k] == t1[k]);
        }
    }
    if any_line_has_both(t, p, q) {
        let k = choose|k: int|
            0 <= k < t.len() && contains_spec(#[trigger] t[k], p) && contains_spec(t[k], q);
        assert(t1[k] == t[k]);
    }
    if contains_spec(lv[i], p) && contains_spec(lv[i], q) {
        assert(t1[i] == lv[i]);
    }
}

/// The kinds of secret-like material in a file's contents.
#[verifier::spinoff_prover]
pub fn secret_labels(contents: &str) -> (r: Vec<String>)
    ensures
        views(r@) == secret_labels_spec(contents@),
{
    let ls = lines(contents);
    let ghost lv = lines_spec(contents@);
    let mut aws = false;
    let mut discord = false;
    let mut github = false;
    let mut google = false;
    let mut openrouter = false;
    let mut private_key = false;
    let mut i: usize = 0;
    while i < ls.len()
        invariant
            i <= ls.len(),
            views(ls@) == lv,
            aws == (any_line_has(lv.take(i as int), "AWS_ACCESS_KEY_ID="@) || any_line_has(
                lv.take(i as int),
                "AWS_SECRET_ACCESS_KEY="@,
            )),
            discord == (any_line_has(lv.take(i as int), "DISCORD_TOKEN="@) || any_line_has(
                lv.take(i as int),
                "DISCORD_WEBHOOK"@,
            )),
            github == (any_line_has(lv.take(i as int), "ghp_"@) || any_line_has(
                lv.take(i as int),
                "github_pat_"@,
            )),
            google == (any_line_has(lv.take(i as int), "AIzaSy"@) || any_line_has(
                lv.take(i as int),
                "GEMINI_API_KEY="@,
            )),
            openrouter == (any_line_has(lv.take(i as int), "sk-or-"@) || any_line_has(
                lv.take(i as int),
                "OPENROUTER_API_KEY="@,
            )),
            private_key == any_line_has_both(
                lv.take(i as int),
                "-----BEGIN"@,
                "PRIVATE KEY-----"@,
            ),
        decreases ls.len() - i,
    {
        let line = ls[i].as_str();
        let a1 = contains(line, "AWS_ACCESS_KEY_ID=");
        let a2 = contains(line, "AWS_SECRET_ACCESS_KEY=");
        let d1 = contains(line, "DISCORD_TOKEN=");
        let d2 = contains(line, "DISCORD_WEBHOOK");
        let g1 = contains(line, "ghp_");
        let g2 = contains(line, "github_pat_");
        let o1 = contains(line, "AIzaSy");
        let o2 = contains(line, "GEMINI_API_KEY=");
        let s1 = contains(line, "sk-or-");
        let s2 = contains(line, "OPENROUTER_API_KEY=");
        let p1 = contains(line, "-----BEGIN");
        let p2 = contains(line, "PRIVATE KEY-----");
        proof {
            assert(lv[i as int] == line@) by {
                assert(views(ls@)[i as int] == ls@[i as int]@);
            }
            lemma_any_line_step(lv, i as int);
            lemma_any_line_both_step(lv, i as int, "-----BEGIN"@, "PRIVATE KEY-----"@);
        }
        aws = aws || a1 || a2;
        discord = discord || d1 || d2;
        github = github || g1 || g2;
        google = google || o1 || o2;
        openrouter = openrouter || s1 || s2;
        private_key = private_key || (p1 && p2);
        i = i + 1;
    }
    assert(lv.take(ls@.len() as int) =~= lv);
    label_list(aws, discord, github, google, openrouter, private_key)
}

fn label_list(
    aws: bool,
    discord: bool,
    github: bool,
    google: bool,
    openrouter: bool,
    private_key: bool,
) -> (r: Vec<String>)
    ensures
        views(r@) == label_if(aws, "AWS credential"@) + label_if(discord, "Discord credential"@)
            + label_if(github, "GitHub token"@) + label_if(google, "Google/Gemini API key"@)
            + label_if(openrouter, "OpenRouter key"@) + label_if(private_key, "private key"@),
{
    let mut r: Vec<String> = Vec::new();
    if aws {
        r.push("AWS credential".to_owned());
    }
    let ghost r1 = views(r@);
    if discord {
        r.push("Discord credential".to_owned());
    }
    let ghost r2 = views(r@);
    if github {
        r.push("GitHub token".to_owned());
    }
    let ghost r3 = views(r@);
    if google {
        r.push("Google/Gemini API key".to_owned());
    }
    let ghost r4 = views(r@);
    if openrouter {
        r.push("OpenRouter key".to_owned());
    }
    let ghost r5 = views(r@);
    if private_key {
        r.push("private key".to_owned());
    }
    proof {
        assert(r1 =~= label_if(aws, "AWS credential"@));
        assert(r2 =~= r1 + label_if(discord, "Discord credential"@));
        assert(r3 =~= r2 + label_if(github, "GitHub token"@));
        assert(r4 =~= r3 + label_if(google, "Google/Gemini API key"@));
        assert(r5 =~= r4 + label_if(openrouter, "OpenRouter key"@));
        assert(views(r@) =~= r5 + label_if(private_key, "private key"@));
    }
    r
}

/// One of the kinds of secret-like material the scan names.
pub open spec fn is_secret_kind(label: Seq<char>) -> bool {
    ||| label == "AWS credential"@
    ||| label == "Discord credential"@
    ||| label == "GitHub token"@
    ||| label == "Google/Gemini API key"@
    ||| label == "OpenRouter key"@
    ||| label == "private key"@
}

proof fn lemma_append_label(p: Seq<Seq<char>>, b: bool, name: Seq<char>, allowed: Set<Seq<char>>)
    requires
        forall|i: int| 0 <= i < p.len() ==> allowed.contains(#[trigger] p[i]),
        p.no_duplicates(),
        !allowed.contains(name),
    ensures
        forall|i: int|
            0 <= i < (p + label_if(b, name)).len() ==> allowed.insert(name).contains(
                #[trigger] (p + label_if(b, name))[i],
            ),
        (p + label_if(b, name)).no_duplicates(),
{
    let q = p + label_if(b, name);
    assert forall|i: int| 0 <= i < q.len() implies allowed.insert(name).contains(#[trigger] q[i]) by {
        if i < p.len() {
            assert(q[i] == p[i]);
        }
    }
    assert forall|i: int, j: int| 0 <= i < q.len() && 0 <= j < q.len() && i != j implies q[i]
        != q[j] by {
        if i < p.len() && j < p.len() {
            assert(q[i] == p[i] && q[j] == p[j]);
        } else if i < p.len() {
            assert(q[i] == p[i]);
            assert(allowed.contains(p[i]));
        } else if j < p.len() {
            assert(q[j] == p[j]);
            assert(allowed.contains(p[j]));
        }
    }
}

/// The scan reports kinds, never what matched: whatever a file contains,
/// each label it yields is one of the fixed kind names, and none twice.
pub proof fn law_secret_labels_are_kinds(contents: Seq<char>)
    ensures
        forall|i: int|
            0 <= i < secret_labels_spec(contents).len() ==> is_secret_kind(
                #[trigger] secret_labels_spec(contents)[i],
            ),
        secret_labels_spec(contents).no_duplicates(),
{
    reveal_strlit("AWS credential");
    reveal_strlit("Discord credential");
    reveal_strlit("GitHub token");
    reveal_strlit("Google/Gemini API key");
    reveal_strlit("OpenRouter key");
    reveal_strlit("private key");
    let ls = lines_spec(contents);
    let a = "AWS credential"@;
    let d = "Discord credential"@;
    let g = "GitHub token"@;
    let k = "Google/Gemini API key"@;
    let o = "OpenRouter key"@;
    let v = "private key"@;
    assert(a.len() == 14 && d.len() == 18 && g.len() == 12 && k.len() == 21 && o.len() == 14
        && v.len() == 11);
    assert(a[0] != o[0]);
    let p0 = Seq::<Seq<char>>::empty();
    let b0 = any_line_has(ls, "AWS_ACCESS_KEY_ID="@) || any_line_has(ls, "AWS_SECRET_ACCESS_KEY="@);
    let b1 = any_line_has(ls, "DISCORD_TOKEN="@) || any_line_has(ls, "DISCORD_WEBHOOK"@);
    let b2 = any_line_has(ls, "ghp_"@) || any_line_has(ls, "github_pat_"@);
    let b3 = any_line_has(ls, "AIzaSy"@) || any_line_has(ls, "GEMINI_API_KEY="@);
    let b4 = any_line_has(ls, "sk-or-"@) || any_line_has(ls, "OPENROUTER_API_KEY="@);
    let b5 = any_line_has_both(ls, "-----BEGIN"@, "PRIVATE KEY-----"@);
    let s0 = Set::<Seq<char>>::empty();
    lemma_append_label(p0, b0, a, s0);
    let p1 = p0 + label_if(b0, a);
    let s1 = s0.insert(a);
    lemma_append_label(p1, b1, d, s1);
    let p2 = p1 + label_if(b1, d);
    let s2 = s1.insert(d);
    lemma_append_label(p2, b2, g, s2);
    let p3 = p2 + label_if(b2, g);
    let s3 = s2.insert(g);
    lemma_append_label(p3, b3, k, s3);
    let p4 = p3 + label_if(b3, k);
    let s4 = s3.insert(k);
    lemma_append_label(p4, b4, o, s4);
    let p5 = p4 + label_if(b4, o);
    let s5 = s4.insert(o);
    lemma_append_label(p5, b5, v, s5);
    let p6 = p5 + label_if(b5, v);
    assert(label_if(b0, a) =~= p1);
    assert(secret_labels_spec(contents) =~= p6);
}

/// The issue raised for a file with secret-like material: its display
/// path and the kinds found.
pub open spec fn secret_issue_spec(contents: Option<Seq<char>>, display: Seq<char>) -> Seq<
    Seq<char>,
> {
    match contents {
        Some(c) => if secret_labels_spec(c).len() > 0 {
            seq![
                "secret-like material in "@ + display + " ("@ + join_spec(
                    secret_labels_spec(c),
                    ", "@,
                ) + ")"@,
            ]
        } else {
            Seq::empty()
        },
        None => Seq::empty(),
    }
}

/// Scans a file's contents (`None` when it could not be read as text) and
/// adds an issue naming the kinds of secret-like material found.
pub fn scan_file_for_secrets(contents: Option<&str>, display_path: &str, report: &mut RepoReport)
    ensures
        final(report).label == old(report).label,
        views(final(report).issues@) == views(old(report).issues@) + secret_issue_spec(
            match contents {
                Some(c) => Some(c@),
                None => None,
            },
            display_path@,
        ),
{
    let ghost before = views(report.issues@);
    if let Some(c) = contents {
        let labels = secret_labels(c);
        if labels.len() > 0 {
            let mut m = concat("secret-like material in ", display_path);
            push_str(&mut m, " (");
            let j = join(&labels, ", ");
            push_str(&mut m, j.as_str());
            push_str(&mut m, ")");
            report.issue(m);
            assert(views(report.issues@) =~= before.push(m@));
            return;
        }
    }
    assert(views(report.issues@) =~= before);
}

} // verus!

verus! {

/// What the binary observed about one manifest entry.
pub struct ManifestEntry {
    /// The entry as written in the manifest.
    pub path: String,
    /// Whether `$HOME/<path>` exists.
    pub exists_in_home: bool,
    /// The file's text, when it could be read (only consulted when secret
    /// scanning is on).
    pub contents: Option<String>,
}

/// What the binary observed about one repository, in the order it looks.
pub enum RepoProbe {
    /// The bare repository directory does not exist.
    GitDirMissing { git_dir: String },
    /// The manifest file does not exist.
    ManifestMissing { manifest: String },
    /// The manifest exists but could not be read.
    ManifestUnreadable { error: String },
    /// Everything was gathered: `git ls-files`, `git status` and the
    /// manifest entries.
    Inspected {
        indexed: Result<Vec<String>, String>,
        status: Result<Vec<String>, String>,
        entries: Vec<ManifestEntry>,
    },
}

pub open spec fn opt_view(o: Option<String>) -> Option<Seq<char>> {
    match o {
        Some(s) => Some(s@),
        None => None,
    }
}

pub open spec fn lines_result_view(r: Result<Vec<String>, String>) -> Result<
    Seq<Seq<char>>,
    Seq<char>,
> {
    match r {
        Ok(v) => Ok(views(v@)),
        Err(e) => Err(e@),
    }
}

/// The set of tracked paths (empty when `git ls-files` failed).
pub open spec fn tracked_set(indexed: Result<Seq<Seq<char>>, Seq<char>>) -> Set<Seq<char>> {
    match indexed {
        Ok(v) => v.to_set(),
        Err(_) => Set::empty(),
    }
}

pub open spec fn tracked_issues(indexed: Result<Seq<Seq<char>>, Seq<char>>) -> Seq<Seq<char>> {
    match indexed {
        Ok(_) => Seq::empty(),
        Err(e) => seq!["cannot read tracked files: "@ + e],
    }
}

pub open spec fn min_len(n: int, cap: int) -> int {
    if n < cap {
        n
    } else {
        cap
    }
}

/// The working-tree summary: how many changes, the first eight paths, and
/// an ellipsis when there are more.
pub open spec fn status_issues(status: Result<Seq<Seq<char>>, Seq<char>>) -> Seq<Seq<char>> {
    match status {
        Ok(ls) => if ls.len() == 0 {
            Seq::empty()
        } else {
            seq![
                decimal(ls.len()) + " working-tree change(s): "@ + join_spec(
                    ls.take(min_len(ls.len() as int, 8)).map_values(
                        |l: Seq<char>| status_path_spec(l),
                    ),
                    ", "@,
                ) + if ls.len() > 8 {
                    ", …"@
                } else {
                    Seq::empty()
                },
            ]
        },
        Err(e) => seq!["status check failed: "@ + e],
    }
}

pub open spec fn entry_paths(es: Seq<ManifestEntry>) -> Seq<Seq<char>> {
    Seq::new(es.len(), |i: int| es[i].path@)
}

/// The issues for one manifest entry, given the entries listed before it.
pub open spec fn entry_issues(
    e: ManifestEntry,
    listed_before: Set<Seq<char>>,
    indexed: Set<Seq<char>>,
    scan: bool,
) -> Seq<Seq<char>> {
    let p = e.path@;
    if listed_before.contains(p) {
        seq!["manifest duplicates "@ + p]
    } else if !is_safe_relative_spec(p) {
        seq!["manifest path is not relative and safe: "@ + p]
    } else {
        (if !e.exists_in_home {
            seq!["manifest file missing from home: "@ + p]
        } else {
            Seq::empty()
        }) + (if !indexed.contains(p) {
            seq!["manifest file is not tracked: "@ + p]
        } else {
            Seq::empty()
        }) + (if scan {
            secret_issue_spec(opt_view(e.contents), p)
        } else {
            Seq::empty()
        })
    }
}

pub open spec fn entries_issues(es: Seq<ManifestEntry>, indexed: Set<Seq<char>>, scan: bool) -> Seq<
    Seq<char>,
>
    decreases es.len(),
{
    if es.len() == 0 {
        Seq::empty()
    } else {
        entries_issues(es.drop_last(), indexed, scan) + entry_issues(
            es.last(),
            entry_paths(es.drop_last()).to_set(),
            indexed,
            scan,
        )
    }
}

/// The listing of a finite set of strings in increasing order.
pub open spec fn sorted_listing(s: Set<Seq<char>>) -> Seq<Seq<char>> {
    choose|r: Seq<Seq<char>>| is_sorted_set(r) && r.to_set() == s
}

/// Tracked files that no manifest entry lists: the first eight of them in
/// sorted order, minus those matching an exclude pattern.
pub open spec fn extra_issues(
    indexed: Set<Seq<char>>,
    listed: Set<Seq<char>>,
    exclude: Seq<Seq<char>>,
) -> Seq<Seq<char>> {
    let d = sorted_listing(indexed.difference(listed));
    d.take(min_len(d.len() as int, 8)).filter(|x: Seq<char>| !matches_any_exclude(x, exclude)).map_values(
        |x: Seq<char>| "tracked file is outside manifest: "@ + x,
    )
}

/// The issues the doctor reports for one repository.
pub open spec fn inspect_issues(probe: RepoProbe, cfg: DotfilesSecurityConfig) -> Seq<Seq<char>> {
    match probe {
        RepoProbe::GitDirMissing { git_dir } => seq!["git dir missing ("@ + git_dir@ + ")"@],
        RepoProbe::ManifestMissing { manifest } => seq!["manifest missing ("@ + manifest@ + ")"@],
        RepoProbe::ManifestUnreadable { error } => seq!["manifest error: "@ + error@],
        RepoProbe::Inspected { indexed, status, entries } => {
            let t = tracked_set(lines_result_view(indexed));
            tracked_issues(lines_result_view(indexed)) + status_issues(lines_result_view(status))
                + entries_issues(entries@, t, cfg.scan_secrets) + extra_issues(
                t,
                entry_paths(entries@).to_set(),
                views(cfg.exclude@),
            )
        },
    }
}

/// Whether the sorted set `v` holds `x`.
fn set_has(v: &Vec<String>, x: &str) -> (b: bool)
    ensures
        b == views(v@).contains(x@),
{
    let mut i: usize = 0;
    while i < v.len()
        invariant
            i <= v.len(),
            forall|k: int| 0 <= k < i ==> #[trigger] v@[k]@ != x@,
        decreases v.len() - i,
    {
        if str_eq(v[i].as_str(), x) {
            assert(views(v@)[i as int] == x@);
            return true;
        }
        i = i + 1;
    }
    proof {
        if views(v@).contains(x@) {
            let k = choose|k: int| 0 <= k < views(v@).len() && views(v@)[k] == x@;
            assert(v@[k]@ == x@);
        }
    }
    false
}

/// The sorted set of the given lines (`collect::<BTreeSet<_>>()`).
fn sorted_set_of(lines: &Vec<String>) -> (r: Vec<String>)
    ensures
        is_sorted_set(views(r@)),
        views(r@).to_set() == views(lines@).to_set(),
{
    let mut r: Vec<String> = Vec::new();
    let mut i: usize = 0;
    while i < lines.len()
        invariant
            i <= lines.len(),
            is_sorted_set(views(r@)),
            views(r@).to_set() == views(lines@).take(i as int).to_set(),
        decreases lines.len() - i,
    {
        insert_sorted(&mut r, lines[i].clone());
        proof {
            assert(views(lines@).take(i + 1) =~= views(lines@).take(i as int).push(lines@[i as int]@));
            views(lines@).take(i as int).lemma_push_to_set_commute(lines@[i as int]@);
        }
        i = i + 1;
    }
    assert(views(lines@).take(lines@.len() as int) =~= views(lines@));
    r
}

/// The first `min(len, 8)` status lines, summarised.
fn status_summary(ls: &Vec<String>) -> (r: String)
    requires
        ls@.len() > 0,
    ensures
        status_issues(Ok(views(ls@))) == seq![r@],
{
    let n = if ls.len() < 8 {
        ls.len()
    } else {
        8
    };
    let mut shown: Vec<String> = Vec::new();
    let mut i: usize = 0;
    let ghost f = |l: Seq<char>| status_path_spec(l);
    while i < n
        invariant
            i <= n <= ls.len(),
            f == (|l: Seq<char>| status_path_spec(l)),
            views(shown@) == views(ls@).take(i as int).map_values(f),
        decreases n - i,
    {
        let p = status_path(ls[i].as_str());
        let ghost before = views(shown@);
        shown.push(p);
        proof {
            assert(views(ls@).take(i + 1) =~= views(ls@).take(i as int).push(ls@[i as int]@));
            assert(views(shown@) =~= before.push(p@));
            assert(views(shown@) =~= views(ls@).take(i + 1).map_values(f));
        }
        i = i + 1;
    }
    let mut r = usize_to_string(ls.len());
    push_str(&mut r, " working-tree change(s): ");
    let j = join(&shown, ", ");
    push_str(&mut r, j.as_str());
    if ls.len() > 8 {
        push_str(&mut r, ", …");
    }
    proof {
        assert(min_len(views(ls@).len() as int, 8) == n);
        let expect = status_issues(Ok(views(ls@)));
        assert(expect =~= seq![r@]);
    }
    r
}

proof fn lemma_entry_paths_push(es: Seq<ManifestEntry>, i: int)
    requires
        0 <= i < es.len(),
    ensures
        entry_paths(es.take(i + 1)) == entry_paths(es.take(i)).push(es[i].path@),
        entry_paths(es.take(i + 1)).to_set() == entry_paths(es.take(i)).to_set().insert(es[i].path@),
{
    assert(entry_paths(es.take(i + 1)) =~= entry_paths(es.take(i)).push(es[i].path@));
    entry_paths(es.take(i)).lemma_push_to_set_commute(es[i].path@);
}

/// Builds one repository's report from what the binary observed.
#[verifier::spinoff_prover]
pub fn inspect_report(label: &'static str, probe: RepoProbe, cfg: &DotfilesSecurityConfig) -> (r:
    RepoReport)
    ensures
        r.label == label,
        views(r.issues@) == inspect_issues(probe, *cfg),
{
    let ghost probe0 = probe;
    let mut report = RepoReport { label, issues: Vec::new() };
    match probe {
        RepoProbe::GitDirMissing { git_dir } => {
            let mut m = concat("git dir missing (", git_dir.as_str());
            push_str(&mut m, ")");
            report.issue(m);
            assert(views(report.issues@) =~= inspect_issues(probe0, *cfg));
            report
        },
        RepoProbe::ManifestMissing { manifest } => {
            let mut m = concat("manifest missing (", manifest.as_str());
            push_str(&mut m, ")");
            report.issue(m);
            assert(views(report.issues@) =~= inspect_issues(probe0, *cfg));
            report
        },
        RepoProbe::ManifestUnreadable { error } => {
            let m = concat("manifest error: ", error.as_str());
            report.issue(m);
            assert(views(report.issues@) =~= inspect_issues(probe0, *cfg));
            report
        },
        RepoProbe::Inspected { indexed, status, entries } => {
            let ghost tv = lines_result_view(indexed);
            let ghost tset = tracked_set(tv);
            let tracked_sorted: Vec<String> = match &indexed {
                Ok(lines) => sorted_set_of(lines),
                Err(e) => {
                    report.issue(concat("cannot read tracked files: ", e.as_str()));
                    Vec::new()
                },
            };
            proof {
                assert(views(tracked_sorted@).to_set() =~= tset);
                assert(views(report.issues@) =~= tracked_issues(tv));
            }
            let ghost after_tracked = views(report.issues@);
            match &status {
                Ok(ls) => {
                    if ls.len() > 0 {
                        let s = status_summary(ls);
                        report.issue(s);
                    }
                },
                Err(e) => {
                    report.issue(concat("status check failed: ", e.as_str()));
                },
            }
            let ghost prefix = views(report.issues@);
            proof {
                assert(prefix =~= after_tracked + status_issues(lines_result_view(status)));
            }
            let mut listed: Vec<String> = Vec::new();
            let mut i: usize = 0;
            while i < entries.len()
                invariant
                    i <= entries.len(),
                    report.label == label,
                    is_sorted_set(views(listed@)),
                    views(listed@).to_set() == entry_paths(entries@.take(i as int)).to_set(),
                    views(tracked_sorted@).to_set() == tset,
                    views(report.issues@) == prefix + entries_issues(
                        entries@.take(i as int),
                        tset,
                        cfg.scan_secrets,
                    ),
                decreases entries.len() - i,
            {
                let e = &entries[i];
                let ghost before = views(report.issues@);
                proof {
                    lemma_entry_paths_push(entries@, i as int);
                    assert(entries@.take(i + 1).drop_last() =~= entries@.take(i as int));
                    assert(entries@.take(i + 1).last() == entries@[i as int]);
                }
                let added = insert_sorted(&mut listed, e.path.clone());
                if !added {
                    report.issue(concat("manifest duplicates ", e.path.as_str()));
                } else if !is_safe_relative_path(e.path.as_str()) {
                    report.issue(concat("manifest path is not relative and safe: ", e.path.as_str()));
                } else {
                    if !e.exists_in_home {
                        report.issue(concat("manifest file missing from home: ", e.path.as_str()));
                    }
                    let ghost mid1 = views(report.issues@);
                    if !set_has(&tracked_sorted, e.path.as_str()) {
                        report.issue(concat("manifest file is not tracked: ", e.path.as_str()));
                    }
                    let ghost mid2 = views(report.issues@);
                    if cfg.scan_secrets {
                        let c = match &e.contents {
                            Some(c) => Some(c.as_str()),
                            None => None,
                        };
                        assert(match c {
                            Some(x) => Some(x@),
                            None => None,
                        } == opt_view(e.contents));
                        scan_file_for_secrets(c, e.path.as_str(), &mut report);
                    }
                    proof {
                        assert(mid2 == mid1 + (if !tset.contains(e.path@) {
                            seq!["manifest file is not tracked: "@ + e.path@]
                        } else {
                            Seq::<Seq<char>>::empty()
                        }));
                    }
                }
                proof {
                    let one = entry_issues(
                        entries@[i as int],
                        entry_paths(entries@.take(i as int)).to_set(),
                        tset,
                        cfg.scan_secrets,
                    );
                    assert(views(report.issues@) =~= before + one);
                }
                i = i + 1;
            }
            assert(entries@.take(entries@.len() as int) =~= entries@);
            let ghost listed_set = entry_paths(entries@).to_set();
            // Tracked files not listed, in sorted order.
            let mut d: Vec<String> = Vec::new();
            let mut k: usize = 0;
            while k < tracked_sorted.len()
                invariant
                    k <= tracked_sorted.len(),
                    views(listed@).to_set() == listed_set,
                    views(tracked_sorted@).to_set() == tset,
                    is_sorted_set(views(tracked_sorted@)),
                    is_sorted_set(views(d@)),
                    views(d@).to_set() == views(tracked_sorted@).take(k as int).to_set().difference(
                        listed_set,
                    ),
                    forall|a: int, b: int|
                        0 <= a < d@.len() && k <= b < tracked_sorted@.len() ==> crate::order::str_lt(
                            #[trigger] views(d@)[a],
                            #[trigger] views(tracked_sorted@)[b],
                        ),
                decreases tracked_sorted.len() - k,
            {
                let x = &tracked_sorted[k];
                let ghost ts = views(tracked_sorted@);
                proof {
                    assert(ts.take(k + 1) =~= ts.take(k as int).push(x@));
                    ts.take(k as int).lemma_push_to_set_commute(x@);
                }
                if !set_has(&listed, x.as_str()) {
                    let ghost dv = views(d@);
                    d.push(x.clone());
                    proof {
                        assert(views(d@) =~= dv.push(x@));
                        dv.lemma_push_to_set_commute(x@);
                        assert(!views(listed@).to_set().contains(x@));
                        assert(is_sorted_set(views(d@))) by {
                            assert forall|a: int, b: int|
                                0 <= a < b < views(d@).len() implies crate::order::str_lt(
                                #[trigger] views(d@)[a],
                                #[trigger] views(d@)[b],
                            ) by {
                                if b < dv.len() {
                                    assert(views(d@)[a] == dv[a] && views(d@)[b] == dv[b]);
                                } else {
                                    assert(views(d@)[a] == dv[a]);
                                    assert(views(d@)[b] == ts[k as int]);
                                    assert(crate::order::str_lt(dv[a], ts[k as int]));
                                }
                            }
                        }
                        assert forall|a: int, b: int|
                            0 <= a < views(d@).len() && k + 1 <= b < ts.len() implies crate::order::str_lt(
                            #[trigger] views(d@)[a],
                            #[trigger] ts[b],
                        ) by {
                            if a < dv.len() {
                                assert(views(d@)[a] == dv[a]);
                            } else {
                                assert(ts[k as int] == x@);
                            }
                        }
                        assert(views(d@).to_set() =~= ts.take(k + 1).to_set().difference(listed_set));
                    }
                } else {
                    proof {
                        assert(views(listed@).to_set().contains(x@));
                        assert(views(d@).to_set() =~= ts.take(k + 1).to_set().difference(listed_set));
                    }
                }
                k = k + 1;
            }
            proof {
                let ts = views(tracked_sorted@);
                assert(ts.take(ts.len() as int) =~= ts);
                let diff = tset.difference(listed_set);
                assert(views(d@).to_set() == diff);
                lemma_sorted_set_unique(views(d@), sorted_listing(diff));
            }
            let n = if d.len() < 8 {
                d.len()
            } else {
                8
            };
            let ghost dv = views(d@);
            let ghost keep = |x: Seq<char>| !matches_any_exclude(x, views(cfg.exclude@));
            let ghost msg = |x: Seq<char>| "tracked file is outside manifest: "@ + x;
            let ghost base = views(report.issues@);
            let mut j: usize = 0;
            while j < n
                invariant
                    j <= n <= d.len(),
                    dv == views(d@),
                    report.label == label,
                    keep == (|x: Seq<char>| !matches_any_exclude(x, views(cfg.exclude@))),
                    msg == (|x: Seq<char>| "tracked file is outside manifest: "@ + x),
                    views(report.issues@) == base + dv.take(j as int).filter(keep).map_values(msg),
                decreases n - j,
            {
                let x = &d[j];
                proof {
                    assert(dv.take(j + 1) =~= dv.take(j as int).push(x@));
                    dv.take(j as int).lemma_filter_push(x@, keep);
                }
                let ghost before = views(report.issues@);
                if !matches_exclude(x.as_str(), &cfg.exclude) {
                    report.issue(concat("tracked file is outside manifest: ", x.as_str()));
                    proof {
                        assert(dv.take(j as int).filter(keep).push(x@).map_values(msg) =~= dv.take(
                            j as int,
                        ).filter(keep).map_values(msg).push(msg(x@)));
                        assert(views(report.issues@) =~= before.push(msg(x@)));
                    }
                }
                j = j + 1;
            }
            proof {
                assert(min_len(dv.len() as int, 8) == n);
                assert(views(report.issues@) =~= inspect_issues(probe0, *cfg));
            }
            report
        },
    }
}

} // verus!

verus! {

/// The permission bits recorded for a snapshot file when none are given.
pub fn default_snapshot_mode() -> (m: u32)
    ensures
        m == 0o600,
{
    0o600
}

/// One file of a snapshot: which repository's manifest listed it, its path
/// relative to the home directory, and its permission bits.
#[derive(Debug)]
pub struct SnapshotFile {
    pub repo: String,
    pub path: String,
    pub mode: u32,
}

/// A snapshot id is one plain directory name.
pub fn is_safe_snapshot_id(id: &str) -> (b: bool)
    ensures
        b == is_safe_name_spec(id@),
{
    is_safe_name(id)
}

/// A new snapshot's id: the timestamp, or the timestamp and the process id
/// when a snapshot with that timestamp already exists.
pub fn snapshot_id(base: &str, taken: bool, pid: u32) -> (r: String)
    ensures
        r@ == if taken {
            base@ + "-"@ + decimal(pid as nat)
        } else {
            base@
        },
{
    if taken {
        let mut r = concat(base, "-");
        push_str(&mut r, crate::text::u64_to_string(pid as u64).as_str());
        r
    } else {
        base.to_owned()
    }
}

/// The snapshot timestamp for a clock reading of `secs` seconds and `nanos`
/// nanoseconds after the Unix epoch: the UTC time chrono renders as
/// `%Y%m%d-%H%M%S`. Any time up to the year 9999 renders, and the text is
/// always a plain directory name.
pub fn snapshot_stamp_at(secs: i64, nanos: u32) -> (r: Option<String>)
    ensures
        crate::clock::opt_text(r) == crate::clock::chrono_utc_format(secs, nanos, "%Y%m%d-%H%M%S"@),
        0 <= secs < crate::clock::year_ten_thousand() && nanos < 1_000_000_000 ==> r is Some,
        r matches Some(s) ==> crate::clock::is_compact_stamp(s@) && is_safe_name_spec(s@),
{
    match crate::clock::utc_formatted(secs, nanos, "%Y%m%d-%H%M%S") {
        Some(s) => {
            proof {
                lemma_stamp_is_safe_name(s@);
            }
            Some(s)
        },
        None => None,
    }
}

/// The snapshot timestamp for the current time: `snapshot_stamp_at` of the
/// clock's reading. Which time that is depends on the clock; `None` when the
/// clock reads earlier than the Unix epoch.
pub fn snapshot_stamp_now() -> (r: Option<String>)
    ensures
        r matches Some(s) ==> exists|secs: i64, nanos: u32|
            0 <= secs && nanos < 1_000_000_000 && #[trigger] crate::clock::chrono_utc_format(
                secs,
                nanos,
                "%Y%m%d-%H%M%S"@,
            ) == Some(s@),
        r matches Some(s) ==> crate::clock::is_compact_stamp(s@) && is_safe_name_spec(s@),
{
    match crate::clock::epoch_reading() {
        Some((secs, nanos)) => snapshot_stamp_at(secs, nanos),
        None => None,
    }
}

/// A compact timestamp holds only digits, signs and `-`, so it is a plain
/// directory name.
proof fn lemma_stamp_is_safe_name(s: Seq<char>)
    requires
        crate::clock::is_compact_stamp(s),
    ensures
        is_safe_name_spec(s),
{
    let y = choose|y: int| #[trigger] crate::clock::stamp_layout(s, y);
    let yt = s.take(y);
    assert forall|i: int| 0 <= i < s.len() implies s[i] != '/' && s[i] != '\\' && s[i] != '.' by {
        if i < y {
            assert(s[i] == yt[i]);
            if i > 0 || yt.len() == 4 {
                assert(crate::clock::is_digit(yt[i]));
            }
        } else if i < y + 4 {
            assert(crate::clock::is_digit(s[i]));
        } else if i > y + 4 {
            assert(crate::clock::is_digit(s[i]));
        }
    }
    assert(s.len() >= 15);
    assert(!s.contains('/'));
    assert(!s.contains('\\'));
}

/// The creation time recorded in a snapshot's metadata for a clock reading
/// of `secs` seconds and `nanos` nanoseconds after the Unix epoch: the UTC
/// time chrono renders in RFC 3339 form
/// (`YYYY-MM-DDTHH:MM:SS[.fraction]+00:00`).
pub fn snapshot_created_at(secs: i64, nanos: u32) -> (r: Option<String>)
    ensures
        crate::clock::opt_text(r) == crate::clock::chrono_utc_rfc3339(secs, nanos),
        0 <= secs < crate::clock::year_ten_thousand() && nanos < 1_000_000_000 ==> r is Some,
        r matches Some(s) ==> crate::clock::is_utc_rfc3339(s@),
{
    crate::clock::utc_rfc3339(secs, nanos)
}

/// The creation time for the current time: `snapshot_created_at` of the
/// clock's reading. Which time that is depends on the clock; `None` when the
/// clock reads earlier than the Unix epoch.
pub fn snapshot_created_now() -> (r: Option<String>)
    ensures
        r matches Some(s) ==> exists|secs: i64, nanos: u32|
            0 <= secs && nanos < 1_000_000_000 && #[trigger] crate::clock::chrono_utc_rfc3339(
                secs,
                nanos,
            ) == Some(s@),
        r matches Some(s) ==> crate::clock::is_utc_rfc3339(s@),
{
    match crate::clock::epoch_reading() {
        Some((secs, nanos)) => snapshot_created_at(secs, nanos),
        None => None,
    }
}

/// A manifest entry about to be snapshotted: whether `$HOME/<path>` is a
/// regular file, and its permission bits.
pub struct SnapshotCandidate {
    pub path: String,
    pub is_file: bool,
    pub mode: u32,
}

/// Why a manifest entry cannot be snapshotted, if it cannot: unsafe, or
/// not a regular file.
pub open spec fn entry_error(c: SnapshotCandidate, home: Seq<char>) -> Option<Seq<char>> {
    if !is_safe_relative_spec(c.path@) {
        Some("manifest path is not relative and safe: "@ + c.path@)
    } else if !c.is_file {
        Some(
            "cannot snapshot missing file "@ + crate::paths::join_spec(home, c.path@) + " ("@
                + c.path@ + ")"@,
        )
    } else {
        None
    }
}

#[verifier::spinoff_prover]
pub fn plan_snapshot_files(repo: &str, cands: &Vec<SnapshotCandidate>, home: &str) -> (r: Result<
    Vec<SnapshotFile>,
    String,
>)
    ensures
        match r {
            Ok(files) => files@.len() == cands@.len() && forall|i: int|
                0 <= i < cands@.len() ==> entry_error(#[trigger] cands@[i], home@) is None
                    && files@[i].repo@ == repo@ && files@[i].path@ == cands@[i].path@
                    && files@[i].mode == cands@[i].mode,
            Err(e) => exists|i: int|
                0 <= i < cands@.len() && (forall|j: int|
                    0 <= j < i ==> entry_error(#[trigger] cands@[j], home@) is None)
                    && entry_error(cands@[i], home@) == Some(e@),
        },
{
    let mut files: Vec<SnapshotFile> = Vec::new();
    let mut i: usize = 0;
    while i < cands.len()
        invariant
            i <= cands.len(),
            files@.len() == i,
            forall|j: int|
                0 <= j < i ==> entry_error(#[trigger] cands@[j], home@) is None
                    && files@[j].repo@ == repo@ && files@[j].path@ == cands@[j].path@
                    && files@[j].mode == cands@[j].mode,
        decreases cands.len() - i,
    {
        let c = &cands[i];
        if !is_safe_relative_path(c.path.as_str()) {
            return Err(concat("manifest path is not relative and safe: ", c.path.as_str()));
        }
        if !c.is_file {
            let mut m = concat("cannot snapshot missing file ", crate::paths::join_path(home, c.path.as_str()).as_str());
            push_str(&mut m, " (");
            push_str(&mut m, c.path.as_str());
            push_str(&mut m, ")");
            return Err(m);
        }
        files.push(SnapshotFile { repo: repo.to_owned(), path: c.path.clone(), mode: c.mode });
        i = i + 1;
    }
    Ok(files)
}

/// The result line of a snapshot: what a dry run would do, or what was done.
pub fn snapshot_message(id: &str, files: usize, dry_run: bool) -> (r: String)
    ensures
        r@ == if dry_run {
            "[dry-run] would create dotfiles snapshot "@ + id@ + " with "@ + decimal(files as nat)
                + " file(s)"@
        } else {
            "created dotfiles snapshot "@ + id@ + " ("@ + decimal(files as nat) + " file(s))"@
        },
{
    let n = usize_to_string(files);
    if dry_run {
        let mut r = concat("[dry-run] would create dotfiles snapshot ", id);
        push_str(&mut r, " with ");
        push_str(&mut r, n.as_str());
        push_str(&mut r, " file(s)");
        r
    } else {
        let mut r = concat("created dotfiles snapshot ", id);
        push_str(&mut r, " (");
        push_str(&mut r, n.as_str());
        push_str(&mut r, " file(s))");
        r
    }
}

/// How many of `count` snapshots to remove so that at most `max_snapshots`
/// (and at least one) remain.
pub open spec fn retention_excess_spec(count: int, max_snapshots: int) -> int {
    let keep = if max_snapshots < 1 {
        1
    } else {
        max_snapshots
    };
    if count > keep {
        count - keep
    } else {
        0
    }
}

pub fn retention_excess(count: usize, max_snapshots: usize) -> (r: usize)
    ensures
        r == retention_excess_spec(count as int, max_snapshots as int),
{
    let keep = if max_snapshots < 1 {
        1
    } else {
        max_snapshots
    };
    if count > keep {
        count - keep
    } else {
        0
    }
}

/// Retention never deletes the last snapshot: of `count` snapshots at
/// least one stays (when there is one), and at most `max_snapshots` (one,
/// when that is zero) stay.
pub proof fn law_retention_keeps_one(count: nat, max_snapshots: nat)
    ensures
        0 <= retention_excess_spec(count as int, max_snapshots as int) <= count,
        count >= 1 ==> count - retention_excess_spec(count as int, max_snapshots as int) >= 1,
        count - retention_excess_spec(count as int, max_snapshots as int) <= if max_snapshots < 1 {
            1
        } else {
            max_snapshots as int
        },
{
}

/// The snapshot directories to delete: the oldest ones, i.e. the first
/// names in byte order, as many as `retention_excess` says.
pub fn snapshots_to_remove(names: &Vec<Vec<u8>>, max_snapshots: usize) -> (r: Vec<Vec<u8>>)
    ensures
        exists|sorted: Seq<Seq<u8>>|
            is_sorted_bytes(sorted) && sorted.to_multiset() == byte_views(names@).to_multiset()
                && byte_views(r@) == sorted.take(
                retention_excess_spec(names@.len() as int, max_snapshots as int),
            ),
{
    let sorted = sort_names(names);
    let ghost sv = byte_views(sorted@);
    proof {
        sv.to_multiset_ensures();
        byte_views(names@).to_multiset_ensures();
    }
    let n = retention_excess(sorted.len(), max_snapshots);
    let mut r: Vec<Vec<u8>> = Vec::new();
    let mut i: usize = 0;
    while i < n
        invariant
            i <= n <= sorted@.len(),
            sv == byte_views(sorted@),
            byte_views(r@) == sv.take(i as int),
        decreases n - i,
    {
        let c = sorted[i].clone();
        assert(c@ =~= sorted@[i as int]@);
        let ghost before = byte_views(r@);
        r.push(c);
        assert(byte_views(r@) =~= before.push(c@));
        assert(sv.take(i + 1) =~= sv.take(i as int).push(sv[i as int]));
        i = i + 1;
    }
    assert(sorted@.len() == names@.len());
    r
}

/// The error for a snapshot id that is not one plain directory name.
pub fn invalid_snapshot_id(id: &str) -> (r: Option<String>)
    ensures
        r is None == is_safe_name_spec(id@),
        r is Some ==> r->0@ == "invalid snapshot id: "@ + id@,
{
    if is_safe_snapshot_id(id) {
        None
    } else {
        Some(concat("invalid snapshot id: ", id))
    }
}

/// Where a snapshot file is restored from and to: `<root>/<repo>/<path>`
/// and `$HOME/<path>`; refused for an unknown repository label or an
/// unsafe path.
pub open spec fn restore_paths_spec(repo: Seq<char>, path: Seq<char>, root: Seq<char>, home: Seq<char>) -> Result<
    (Seq<char>, Seq<char>),
    Seq<char>,
> {
    if repo != "public"@ && repo != "private"@ {
        Err("snapshot contains an unknown repository label"@)
    } else if !is_safe_relative_spec(path) {
        Err("snapshot contains an unsafe path: "@ + path)
    } else {
        Ok(
            (
                crate::paths::join_spec(crate::paths::join_spec(root, repo), path),
                crate::paths::join_spec(home, path),
            ),
        )
    }
}

/// A repository label is a plain name, so it stays inside the directory
/// it is joined onto.
proof fn lemma_label_is_safe(repo: Seq<char>)
    requires
        repo == "public"@ || repo == "private"@,
    ensures
        is_safe_relative_spec(repo),
{
    reveal_strlit("public");
    reveal_strlit("private");
    assert forall|i: int| 0 <= i < repo.len() implies repo[i] != '.' by {
        if repo == "public"@ {
            assert(repo =~= seq!['p', 'u', 'b', 'l', 'i', 'c']);
        } else {
            assert(repo =~= seq!['p', 'r', 'i', 'v', 'a', 't', 'e']);
        }
    }
    assert(repo[0] != '/');
}

/// A rollback only writes inside the home directory and only reads inside
/// the snapshot: whenever a file is restored, its destination has the home
/// directory's components first and its source the snapshot root's, with
/// no `..` after them.
pub proof fn law_restore_stays_inside(
    repo: Seq<char>,
    path: Seq<char>,
    root: Seq<char>,
    home: Seq<char>,
)
    requires
        restore_paths_spec(repo, path, root, home) is Ok,
    ensures
        ({
            let (source, destination) = restore_paths_spec(repo, path, root, home)->Ok_0;
            &&& components(home).is_prefix_of(components(destination))
            &&& forall|k: int|
                components(home).len() <= k < components(destination).len()
                    ==> #[trigger] components(destination)[k] != seq!['.', '.']
            &&& components(root).is_prefix_of(components(source))
            &&& forall|k: int|
                components(root).len() <= k < components(source).len()
                    ==> #[trigger] components(source)[k] != seq!['.', '.']
        }),
{
    let rr = crate::paths::join_spec(root, repo);
    let source = crate::paths::join_spec(rr, path);
    law_safe_join_stays_inside(home, path);
    lemma_label_is_safe(repo);
    law_safe_join_stays_inside(root, repo);
    law_safe_join_stays_inside(rr, path);
    let cr = components(root);
    let crr = components(rr);
    let cs = components(source);
    assert(cr.is_prefix_of(cs)) by {
        assert forall|k: int| 0 <= k < cr.len() implies cr[k] == cs[k] by {
            assert(cr[k] == crr[k]);
        }
    }
    assert forall|k: int| cr.len() <= k < cs.len() implies #[trigger] cs[k] != seq!['.', '.'] by {
        if k < crr.len() {
            assert(cs[k] == crr[k]);
        }
    }
}

pub fn restore_paths(file: &SnapshotFile, root: &str, home: &str) -> (r: Result<(String, String), String>)
    ensures
        match (r, restore_paths_spec(file.repo@, file.path@, root@, home@)) {
            (Ok((s, d)), Ok((s2, d2))) => s@ == s2 && d@ == d2,
            (Err(e), Err(e2)) => e@ == e2,
            _ => false,
        },
{
    if !str_eq(file.repo.as_str(), "public") && !str_eq(file.repo.as_str(), "private") {
        return Err("snapshot contains an unknown repository label".to_owned());
    }
    if !is_safe_relative_path(file.path.as_str()) {
        return Err(concat("snapshot contains an unsafe path: ", file.path.as_str()));
    }
    let repo_dir = crate::paths::join_path(root, file.repo.as_str());
    let source = crate::paths::join_path(repo_dir.as_str(), file.path.as_str());
    let destination = crate::paths::join_path(home, file.path.as_str());
    Ok((source, destination))
}

/// What restoring one file does.
pub enum RestoreAction {
    /// A dry run: print this line.
    Announce(String),
    /// Copy the snapshot file over the live one.
    Copy,
}

/// Restoring one file: refused when the snapshot copy is missing or the
/// live path is a symlink; otherwise copied, or only announced in a dry run.
pub fn restore_step(
    source: &str,
    destination: &str,
    source_is_file: bool,
    destination_is_symlink: bool,
    dry_run: bool,
) -> (r: Result<RestoreAction, String>)
    ensures
        !source_is_file ==> r is Err && r->Err_0@ == "snapshot file is missing: "@ + source@,
        source_is_file && destination_is_symlink ==> r is Err && r->Err_0@
            == "refusing to overwrite symlink: "@ + destination@,
        source_is_file && !destination_is_symlink && dry_run ==> (r matches Ok(
            RestoreAction::Announce(l),
        ) && l@ == "[dry-run] would restore "@ + destination@),
        source_is_file && !destination_is_symlink && !dry_run ==> (r matches Ok(RestoreAction::Copy)),
{
    if !source_is_file {
        return Err(concat("snapshot file is missing: ", source));
    }
    if destination_is_symlink {
        return Err(concat("refusing to overwrite symlink: ", destination));
    }
    if dry_run {
        Ok(RestoreAction::Announce(concat("[dry-run] would restore ", destination)))
    } else {
        Ok(RestoreAction::Copy)
    }
}

/// The result line of a rollback.
pub fn rollback_message(id: &str, files: usize, dry_run: bool) -> (r: String)
    ensures
        r@ == if dry_run {
            "[dry-run] would restore snapshot "@ + id@
        } else {
            "restored snapshot "@ + id@ + " ("@ + decimal(files as nat) + " file(s))"@
        },
{
    if dry_run {
        concat("[dry-run] would restore snapshot ", id)
    } else {
        let mut r = concat("restored snapshot ", id);
        push_str(&mut r, " (");
        push_str(&mut r, usize_to_string(files).as_str());
        push_str(&mut r, " file(s))");
        r
    }
}

proof fn lemma_label_if_contains(b: bool, label: Seq<char>, x: Seq<char>)
    ensures
        label_if(b, label).contains(x) <==> (b && x == label),
{
    if b {
        assert(label_if(b, label)[0] == label);
    }
}

/// Some line of `ls` contains `p` or `q`, as a plain statement.
proof fn lemma_any_line_either(ls: Seq<Seq<char>>, p: Seq<char>, q: Seq<char>)
    ensures
        (any_line_has(ls, p) || any_line_has(ls, q)) <==> exists|i: int|
            0 <= i < ls.len() && (contains_spec(#[trigger] ls[i], p) || contains_spec(ls[i], q)),
{
    if exists|i: int|
        0 <= i < ls.len() && (contains_spec(#[trigger] ls[i], p) || contains_spec(ls[i], q)) {
        let i = choose|i: int|
            0 <= i < ls.len() && (contains_spec(#[trigger] ls[i], p) || contains_spec(ls[i], q));
        if contains_spec(ls[i], p) {
            assert(any_line_has(ls, p));
        } else {
            assert(any_line_has(ls, q));
        }
    }
}

/// Each kind of secret-like material is reported exactly when some line of
/// the file carries one of its markers: an OpenRouter key for `sk-or-` or
/// `OPENROUTER_API_KEY=`, a Google/Gemini API key for `AIzaSy` or
/// `GEMINI_API_KEY=`, a GitHub token for `ghp_` or `github_pat_`, a
/// private key for `-----BEGIN` and `PRIVATE KEY-----` on one line, an AWS
/// credential for `AWS_ACCESS_KEY_ID=` or `AWS_SECRET_ACCESS_KEY=`, and a
/// Discord credential for `DISCORD_TOKEN=` or `DISCORD_WEBHOOK`.
pub proof fn law_secret_labels_follow_markers(contents: Seq<char>)
    ensures
        ({
            let ls = lines_spec(contents);
            let found = secret_labels_spec(contents);
            &&& found.contains("GitHub token"@) <==> exists|i: int|
                0 <= i < ls.len() && (contains_spec(#[trigger] ls[i], "ghp_"@) || contains_spec(
                    ls[i],
                    "github_pat_"@,
                ))
            &&& found.contains("OpenRouter key"@) <==> exists|i: int|
                0 <= i < ls.len() && (contains_spec(#[trigger] ls[i], "sk-or-"@) || contains_spec(
                    ls[i],
                    "OPENROUTER_API_KEY="@,
                ))
            &&& found.contains("Google/Gemini API key"@) <==> exists|i: int|
                0 <= i < ls.len() && (contains_spec(#[trigger] ls[i], "AIzaSy"@) || contains_spec(
                    ls[i],
                    "GEMINI_API_KEY="@,
                ))
            &&& found.contains("private key"@) <==> exists|i: int|
                0 <= i < ls.len() && contains_spec(#[trigger] ls[i], "-----BEGIN"@)
                    && contains_spec(ls[i], "PRIVATE KEY-----"@)
            &&& found.contains("AWS credential"@) <==> exists|i: int|
                0 <= i < ls.len() && (contains_spec(#[trigger] ls[i], "AWS_ACCESS_KEY_ID="@)
                    || contains_spec(ls[i], "AWS_SECRET_ACCESS_KEY="@))
            &&& found.contains("Discord credential"@) <==> exists|i: int|
                0 <= i < ls.len() && (contains_spec(#[trigger] ls[i], "DISCORD_TOKEN="@)
                    || contains_spec(ls[i], "DISCORD_WEBHOOK"@))
        }),
{
    reveal_strlit("AWS credential");
    reveal_strlit("Discord credential");
    reveal_strlit("GitHub token");
    reveal_strlit("Google/Gemini API key");
    reveal_strlit("OpenRouter key");
    reveal_strlit("private key");
    let ls = lines_spec(contents);
    let a = "AWS credential"@;
    let d = "Discord credential"@;
    let g = "GitHub token"@;
    let k = "Google/Gemini API key"@;
    let o = "OpenRouter key"@;
    let v = "private key"@;
    assert(a.len() == 14 && d.len() == 18 && g.len() == 12 && k.len() == 21 && o.len() == 14
        && v.len() == 11);
    assert(a[0] != o[0]);
    let b0 = any_line_has(ls, "AWS_ACCESS_KEY_ID="@) || any_line_has(ls, "AWS_SECRET_ACCESS_KEY="@);
    let b1 = any_line_has(ls, "DISCORD_TOKEN="@) || any_line_has(ls, "DISCORD_WEBHOOK"@);
    let b2 = any_line_has(ls, "ghp_"@) || any_line_has(ls, "github_pat_"@);
    let b3 = any_line_has(ls, "AIzaSy"@) || any_line_has(ls, "GEMINI_API_KEY="@);
    let b4 = any_line_has(ls, "sk-or-"@) || any_line_has(ls, "OPENROUTER_API_KEY="@);
    let b5 = any_line_has_both(ls, "-----BEGIN"@, "PRIVATE KEY-----"@);
    lemma_any_line_either(ls, "AWS_ACCESS_KEY_ID="@, "AWS_SECRET_ACCESS_KEY="@);
    lemma_any_line_either(ls, "DISCORD_TOKEN="@, "DISCORD_WEBHOOK"@);
    lemma_any_line_either(ls, "ghp_"@, "github_pat_"@);
    lemma_any_line_either(ls, "AIzaSy"@, "GEMINI_API_KEY="@);
    lemma_any_line_either(ls, "sk-or-"@, "OPENROUTER_API_KEY="@);
    let q0 = label_if(b0, a);
    let q1 = label_if(b1, d);
    let q2 = label_if(b2, g);
    let q3 = label_if(b3, k);
    let q4 = label_if(b4, o);
    let q5 = label_if(b5, v);
    let found = secret_labels_spec(contents);
    assert(found == q0 + q1 + q2 + q3 + q4 + q5);
    let labels = seq![a, d, g, k, o, v];
    assert forall|j: int| 0 <= j < 6 implies (found.contains(#[trigger] labels[j]) <==> (
    if j == 0 {
        b0
    } else if j == 1 {
        b1
    } else if j == 2 {
        b2
    } else if j == 3 {
        b3
    } else if j == 4 {
        b4
    } else {
        b5
    })) by {
        let x = labels[j];
        crate::plugins::profiles::lemma_concat_contains(q0 + q1 + q2 + q3 + q4, q5, x);
        crate::plugins::profiles::lemma_concat_contains(q0 + q1 + q2 + q3, q4, x);
        crate::plugins::profiles::lemma_concat_contains(q0 + q1 + q2, q3, x);
        crate::plugins::profiles::lemma_concat_contains(q0 + q1, q2, x);
        crate::plugins::profiles::lemma_concat_contains(q0, q1, x);
        lemma_label_if_contains(b0, a, x);
        lemma_label_if_contains(b1, d, x);
        lemma_label_if_contains(b2, g, x);
        lemma_label_if_contains(b3, k, x);
        lemma_label_if_contains(b4, o, x);
        lemma_label_if_contains(b5, v, x);
    }
    assert(labels[0] == a && labels[1] == d && labels[2] == g && labels[3] == k && labels[4] == o
        && labels[5] == v);
    assert(found.contains(labels[0]) == b0);
    assert(found.contains(labels[1]) == b1);
    assert(found.contains(labels[2]) == b2);
    assert(found.contains(labels[3]) == b3);
    assert(found.contains(labels[4]) == b4);
    assert(found.contains(labels[5]) == b5);
}


proof fn lemma_append_sorted(p: Seq<Seq<char>>, b: bool, l: Seq<char>)
    requires
        is_sorted_set(p),
        forall|i: int| 0 <= i < p.len() ==> crate::order::str_lt(#[trigger] p[i], l),
    ensures
        is_sorted_set(p + label_if(b, l)),
        forall|i: int|
            0 <= i < (p + label_if(b, l)).len() ==> (#[trigger] (p + label_if(b, l))[i] == l
                || crate::order::str_lt((p + label_if(b, l))[i], l)),
{
    let q = p + label_if(b, l);
    assert forall|i: int, j: int| 0 <= i < j < q.len() implies crate::order::str_lt(
        #[trigger] q[i],
        #[trigger] q[j],
    ) by {
        if j < p.len() {
            assert(q[i] == p[i] && q[j] == p[j]);
        } else {
            assert(q[i] == p[i] && q[j] == l);
        }
    }
    assert forall|i: int| 0 <= i < q.len() implies (#[trigger] q[i] == l || crate::order::str_lt(
        q[i],
        l,
    )) by {
        if i < p.len() {
            assert(q[i] == p[i]);
        }
    }
}

proof fn lemma_below(q: Seq<Seq<char>>, l: Seq<char>, next: Seq<char>)
    requires
        forall|i: int| 0 <= i < q.len() ==> (#[trigger] q[i] == l || crate::order::str_lt(q[i], l)),
        crate::order::str_lt(l, next),
    ensures
        forall|i: int| 0 <= i < q.len() ==> crate::order::str_lt(#[trigger] q[i], next),
{
    assert forall|i: int| 0 <= i < q.len() implies crate::order::str_lt(#[trigger] q[i], next) by {
        if q[i] != l {
            crate::order::lemma_lt_transitive(q[i], l, next);
        }
    }
}

/// The kinds found are listed in the order of their names, each once, as
/// a sorted set lists them.
pub proof fn law_secret_labels_sorted(contents: Seq<char>)
    ensures
        is_sorted_set(secret_labels_spec(contents)),
{
    reveal_strlit("AWS credential");
    reveal_strlit("Discord credential");
    reveal_strlit("GitHub token");
    reveal_strlit("Google/Gemini API key");
    reveal_strlit("OpenRouter key");
    reveal_strlit("private key");
    let ls = lines_spec(contents);
    let a = "AWS credential"@;
    let d = "Discord credential"@;
    let g = "GitHub token"@;
    let k = "Google/Gemini API key"@;
    let o = "OpenRouter key"@;
    let v = "private key"@;
    assert(crate::order::str_lt(a, d));
    assert(crate::order::str_lt(d, g));
    assert(crate::order::str_lt(g.drop_first(), k.drop_first()));
    assert(crate::order::str_lt(g, k));
    assert(crate::order::str_lt(k, o));
    assert(crate::order::str_lt(o, v));
    let b0 = any_line_has(ls, "AWS_ACCESS_KEY_ID="@) || any_line_has(ls, "AWS_SECRET_ACCESS_KEY="@);
    let b1 = any_line_has(ls, "DISCORD_TOKEN="@) || any_line_has(ls, "DISCORD_WEBHOOK"@);
    let b2 = any_line_has(ls, "ghp_"@) || any_line_has(ls, "github_pat_"@);
    let b3 = any_line_has(ls, "AIzaSy"@) || any_line_has(ls, "GEMINI_API_KEY="@);
    let b4 = any_line_has(ls, "sk-or-"@) || any_line_has(ls, "OPENROUTER_API_KEY="@);
    let b5 = any_line_has_both(ls, "-----BEGIN"@, "PRIVATE KEY-----"@);
    let p0 = Seq::<Seq<char>>::empty();
    lemma_append_sorted(p0, b0, a);
    let p1 = p0 + label_if(b0, a);
    lemma_below(p1, a, d);
    lemma_append_sorted(p1, b1, d);
    let p2 = p1 + label_if(b1, d);
    lemma_below(p2, d, g);
    lemma_append_sorted(p2, b2, g);
    let p3 = p2 + label_if(b2, g);
    lemma_below(p3, g, k);
    lemma_append_sorted(p3, b3, k);
    let p4 = p3 + label_if(b3, k);
    lemma_below(p4, k, o);
    lemma_append_sorted(p4, b4, o);
    let p5 = p4 + label_if(b4, o);
    lemma_below(p5, o, v);
    lemma_append_sorted(p5, b5, v);
    let p6 = p5 + label_if(b5, v);
    assert(label_if(b0, a) =~= p1);
    assert(secret_labels_spec(contents) =~= p6);
}

} // verus!
