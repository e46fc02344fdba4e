//! Read-only local validation of the files the dotfiles manifests list,
//! and reminders about GitHub Actions runs. Nothing is executed, changed or
//! published; the binary runs the read-only checks and `gh run list`, and
//! everything reported is decided here.

use vstd::prelude::*;
use crate::config::{AppConfig, ValidationConfig};
use crate::order::{insert_sorted, is_sorted_set};
use crate::path_order::{is_path_set, lemma_path_set_insert, PathSet};
use crate::paths::{components, is_safe_relative_spec, join_path, law_safe_join_stays_inside};
use crate::plugins::dotfiles::{manifest_entries_spec, parse_manifest};
pub use crate::paths::{display_path, is_safe_relative_path};
use crate::plugins::TickAction;
use crate::text::{
    char_index_of_byte, char_offset, chars_of, concat, contains, contains_spec, is_ascii_alnum,
    is_boundary, is_whitespace, is_ws, join, join_spec, lemma_char_offset_unique, push_str,
    split_char, split_on, split_whitespace, str_eq, string_of, string_of_range, trim, trim_spec,
    utf8_len, utf8_len_of, views, words, words_acc, find_from, occurs_at,
};

verus! {

pub struct ValidationPlugin;

impl ValidationPlugin {
    pub fn name(&self) -> (r: &'static str)
        ensures
            r@ == "validation"@,
    {
        "validation"
    }

    /// Seconds between two validation rounds: the configured interval, at
    /// least 60.
    pub fn period_secs(&self, cfg: &AppConfig) -> (r: u64)
        ensures
            r == if cfg.validation.interval_secs < 60 {
                60
            } else {
                cfg.validation.interval_secs
            },
    {
        if cfg.validation.interval_secs < 60 {
            60
        } else {
            cfg.validation.interval_secs
        }
    }
}

/// The findings of one validation round: issues in the order found, and
/// notes as a sorted set.
#[derive(Debug)]
pub struct Report {
    issues: Vec<String>,
    notes: Vec<String>,
}

/// The rendered report: `validation: healthy`, or the issues followed by
/// the notes (each prefixed `note: `), joined with `; `.
pub open spec fn render_spec(issues: Seq<Seq<char>>, notes: Seq<Seq<char>>) -> Seq<char> {
    let lines = issues + notes.map_values(|n: Seq<char>| "note: "@ + n);
    if lines.len() == 0 {
        "validation: healthy"@
    } else {
        "validation: "@ + join_spec(lines, "; "@)
    }
}

impl Report {
    /// The issues, in the order they were raised.
    pub closed spec fn issues_view(self) -> Seq<Seq<char>> {
        views(self.issues@)
    }

    /// The notes, in sorted order and each once.
    pub closed spec fn notes_view(self) -> Seq<Seq<char>> {
        views(self.notes@)
    }

    #[verifier::type_invariant]
    closed spec fn notes_sorted(self) -> bool {
        is_sorted_set(views(self.notes@))
    }

    pub fn new() -> (r: Self)
        ensures
            r.issues_view().len() == 0,
            r.notes_view().len() == 0,
    {
        Report { issues: Vec::new(), notes: Vec::new() }
    }

    pub fn issue(&mut self, message: String)
        ensures
            final(self).issues_view() == old(self).issues_view().push(message@),
            final(self).notes_view() == old(self).notes_view(),
    {
        proof {
            use_type_invariant(&*self);
        }
        let mut issues: Vec<String> = Vec::new();
        std::mem::swap(&mut issues, &mut self.issues);
        issues.push(message);
        self.issues = issues;
        assert(views(self.issues@) =~= views(old(self).issues@).push(message@));
    }

    /// The issues raised so far.
    pub fn issues(&self) -> (r: &Vec<String>)
        ensures
            views(r@) == self.issues_view(),
    {
        &self.issues
    }

    /// Adds a note; a note already present is not repeated.
    pub fn note(&mut self, message: String)
        ensures
            final(self).issues_view() == old(self).issues_view(),
            is_sorted_set(final(self).notes_view()),
            final(self).notes_view().to_set() == old(self).notes_view().to_set().insert(message@),
    {
        proof {
            use_type_invariant(&*self);
        }
        let mut notes: Vec<String> = Vec::new();
        std::mem::swap(&mut notes, &mut self.notes);
        insert_sorted(&mut notes, message);
        self.notes = notes;
    }

    pub fn has_issues(&self) -> (b: bool)
        ensures
            b == (self.issues_view().len() > 0),
    {
        self.issues.len() > 0
    }

    pub fn render(&self) -> (r: String)
        ensures
            r@ == render_spec(self.issues_view(), self.notes_view()),
    {
        let mut lines: Vec<String> = Vec::new();
        let mut i: usize = 0;
        while i < self.issues.len()
            invariant
                i <= self.issues.len(),
                views(lines@) == views(self.issues@).take(i as int),
            decreases self.issues.len() - i,
        {
            let ghost before = views(lines@);
            lines.push(self.issues[i].clone());
            assert(views(lines@) =~= before.push(self.issues@[i as int]@));
            assert(views(self.issues@).take(i + 1) =~= views(self.issues@).take(i as int).push(
                self.issues@[i as int]@,
            ));
            i = i + 1;
        }
        assert(views(self.issues@).take(self.issues@.len() as int) =~= views(self.issues@));
        let ghost f = |n: Seq<char>| "note: "@ + n;
        let mut j: usize = 0;
        while j < self.notes.len()
            invariant
                j <= self.notes.len(),
                f == (|n: Seq<char>| "note: "@ + n),
                views(lines@) == views(self.issues@) + views(self.notes@).take(j as int).map_values(f),
            decreases self.notes.len() - j,
        {
            let ghost before = views(lines@);
            lines.push(concat("note: ", self.notes[j].as_str()));
            assert(views(lines@) =~= before.push(f(self.notes@[j as int]@)));
            assert(views(self.notes@).take(j + 1) =~= views(self.notes@).take(j as int).push(
                self.notes@[j as int]@,
            ));
            assert(views(self.notes@).take(j + 1).map_values(f) =~= views(self.notes@).take(
                j as int,
            ).map_values(f).push(f(self.notes@[j as int]@)));
            j = j + 1;
        }
        assert(views(self.notes@).take(self.notes@.len() as int) =~= views(self.notes@));
        if lines.len() == 0 {
            "validation: healthy".to_owned()
        } else {
            let mut r = "validation: ".to_owned();
            push_str(&mut r, join(&lines, "; ").as_str());
            r
        }
    }
}

/// What a validation round does with its report: nothing when unchanged;
/// otherwise record it (unless a dry run), notify "needs attention" when it
/// has issues, and "restored" for a clean report after an earlier one when
/// success notifications are on.
pub fn report_change(
    previous: Option<&str>,
    rendered: &str,
    has_issues: bool,
    notify_success: bool,
    dry_run: bool,
) -> (a: TickAction)
    ensures
        match previous {
            Some(p) if p@ == rendered@ => a.notify is None && !a.store,
            _ => {
                &&& a.store == !dry_run
                &&& if !has_issues {
                    if previous is Some && notify_success {
                        a.notify is Some && a.notify->0@ == "ApexDaemon: validation restored"@
                    } else {
                        a.notify is None
                    }
                } else {
                    a.notify is Some && a.notify->0@ == "ApexDaemon: validation needs attention"@
                }
            },
        },
{
    let unchanged = match previous {
        Some(p) => str_eq(p, rendered),
        None => false,
    };
    if unchanged {
        return TickAction { notify: None, store: false };
    }
    let notify = if !has_issues {
        if previous.is_some() && notify_success {
            Some("ApexDaemon: validation restored".to_owned())
        } else {
            None
        }
    } else {
        Some("ApexDaemon: validation needs attention".to_owned())
    };
    TickAction { notify, store: !dry_run }
}

/// Adds the issue for CI watching switched on with no repositories.
pub fn check_ci_configured(cfg: &ValidationConfig, report: &mut Report) -> (watch: bool)
    ensures
        watch == (cfg.watch_ci && cfg.repositories@.len() > 0),
        final(report).notes_view() == old(report).notes_view(),
        final(report).issues_view() == old(report).issues_view() + (if cfg.watch_ci
            && cfg.repositories@.len() == 0 {
            seq!["CI watch is enabled but no repositories are configured"@]
        } else {
            Seq::empty()
        }),
{
    if cfg.watch_ci {
        if cfg.repositories.len() == 0 {
            let ghost before = report.issues_view();
            report.issue("CI watch is enabled but no repositories are configured".to_owned());
            assert(report.issues_view() =~= before + seq![
                "CI watch is enabled but no repositories are configured"@,
            ]);
            return false;
        }
        assert(report.issues_view() =~= old(report).issues_view() + Seq::empty());
        return true;
    }
    assert(report.issues_view() =~= old(report).issues_view() + Seq::empty());
    false
}

} // verus!

verus! {

/// A link target that points at a file in the repository: not empty, not
/// an anchor, not absolute, not a web or mail link.
pub open spec fn is_local_link_spec(t: Seq<char>) -> bool {
    &&& t.len() > 0
    &&& !"#"@.is_prefix_of(t)
    &&& !"/"@.is_prefix_of(t)
    &&& !"http://"@.is_prefix_of(t)
    &&& !"https://"@.is_prefix_of(t)
    &&& !"mailto:"@.is_prefix_of(t)
}

pub fn is_local_link(target: &str) -> (b: bool)
    ensures
        b == is_local_link_spec(target@),
{
    !target.is_empty() && !crate::text::starts_with(target, "#") && !crate::text::starts_with(
        target,
        "/",
    ) && !crate::text::starts_with(target, "http://") && !crate::text::starts_with(
        target,
        "https://",
    ) && !crate::text::starts_with(target, "mailto:")
}

pub open spec fn owner_char(c: char) -> bool {
    is_ascii_alnum(c) || c == '-' || c == '_'
}

pub open spec fn repo_char(c: char) -> bool {
    is_ascii_alnum(c) || c == '.' || c == '-' || c == '_'
}

/// `owner/name`: exactly one `/`, both sides non-empty, the owner of ASCII
/// letters, digits, `-` and `_`, the name of those and `.`.
pub open spec fn is_safe_repository_spec(r: Seq<char>) -> bool {
    let parts = split_char(r, '/');
    &&& parts.len() == 2
    &&& parts[0].len() > 0
    &&& parts[1].len() > 0
    &&& forall|i: int| 0 <= i < parts[0].len() ==> owner_char(#[trigger] parts[0][i])
    &&& forall|i: int| 0 <= i < parts[1].len() ==> repo_char(#[trigger] parts[1][i])
}

fn is_alnum(c: char) -> (b: bool)
    ensures
        b == is_ascii_alnum(c),
{
    ('a' <= c && c <= 'z') || ('A' <= c && c <= 'Z') || ('0' <= c && c <= '9')
}

fn all_chars(s: &str, dot_allowed: bool) -> (b: bool)
    ensures
        b == forall|i: int|
            0 <= i < s@.len() ==> (if dot_allowed {
                repo_char(#[trigger] s@[i])
            } else {
                owner_char(s@[i])
            }),
{
    let v = chars_of(s);
    let mut i: usize = 0;
    while i < v.len()
        invariant
            i <= v.len(),
            v@ == s@,
            forall|k: int|
                0 <= k < i ==> (if dot_allowed {
                    repo_char(#[trigger] v@[k])
                } else {
                    owner_char(v@[k])
                }),
        decreases v.len() - i,
    {
        let c = v[i];
        let ok = is_alnum(c) || c == '-' || c == '_' || (dot_allowed && c == '.');
        if !ok {
            return false;
        }
        i = i + 1;
    }
    true
}

/// Whether `repository` is a plain `owner/name` GitHub repository.
pub fn is_safe_repository(repository: &str) -> (b: bool)
    ensures
        b == is_safe_repository_spec(repository@),
{
    let parts = split_on(repository, '/');
    if parts.len() != 2 {
        return false;
    }
    let owner = parts[0].as_str();
    let name = parts[1].as_str();
    assert(views(parts@)[0] == owner@ && views(parts@)[1] == name@);
    !owner.is_empty() && !name.is_empty() && all_chars(owner, false) && all_chars(name, true)
}

/// The whitespace-collapsed text before truncation.
pub open spec fn collapsed(s: Seq<char>) -> Seq<char> {
    join_spec(words(s), " "@)
}

/// Whether `compact` can shorten `s`: either the collapsed text is at most
/// 180 bytes, or byte 180 falls on a character boundary (otherwise
/// `String::truncate` would panic).
pub open spec fn compactable(s: Seq<char>) -> bool {
    utf8_len(collapsed(s)) > 180 ==> is_boundary(collapsed(s), 180)
}

/// Whitespace runs collapsed to single spaces, ends trimmed; longer than
/// 180 bytes, cut at byte 180 and ended with `…`.
pub open spec fn compact_spec(s: Seq<char>) -> Seq<char> {
    let c = collapsed(s);
    if utf8_len(c) > 180 {
        c.take(char_offset(c, 180)).push('…')
    } else {
        c
    }
}

/// The only whitespace in `s` is plain spaces: `s` is one line.
pub open spec fn single_line(s: Seq<char>) -> bool {
    forall|i: int| 0 <= i < s.len() && is_ws(#[trigger] s[i]) ==> s[i] == ' '
}

pub open spec fn no_ws(s: Seq<char>) -> bool {
    forall|i: int| 0 <= i < s.len() ==> !is_ws(#[trigger] s[i])
}

proof fn lemma_words_acc_no_ws(s: Seq<char>)
    ensures
        forall|j: int| 0 <= j < words_acc(s).0.len() ==> no_ws(#[trigger] words_acc(s).0[j]),
        no_ws(words_acc(s).1),
    decreases s.len(),
{
    if s.len() > 0 {
        lemma_words_acc_no_ws(s.drop_last());
        let (ws, cur) = words_acc(s.drop_last());
        if !is_ws(s.last()) {
            assert forall|i: int| 0 <= i < cur.push(s.last()).len() implies !is_ws(
                #[trigger] cur.push(s.last())[i],
            ) by {
                if i < cur.len() {
                    assert(cur.push(s.last())[i] == cur[i]);
                }
            }
        } else if cur.len() > 0 {
            assert forall|j: int| 0 <= j < ws.push(cur).len() implies no_ws(
                #[trigger] ws.push(cur)[j],
            ) by {
                if j < ws.len() {
                    assert(ws.push(cur)[j] == ws[j]);
                }
            }
        }
    }
}

proof fn lemma_join_single_line(parts: Seq<Seq<char>>)
    requires
        forall|j: int| 0 <= j < parts.len() ==> no_ws(#[trigger] parts[j]),
    ensures
        single_line(join_spec(parts, " "@)),
    decreases parts.len(),
{
    reveal_strlit(" ");
    if parts.len() == 1 {
        assert(no_ws(parts[0]));
    } else if parts.len() > 1 {
        let init = parts.drop_last();
        assert forall|j: int| 0 <= j < init.len() implies no_ws(#[trigger] init[j]) by {
            assert(init[j] == parts[j]);
        }
        lemma_join_single_line(init);
        let a = join_spec(init, " "@);
        let l = parts.last();
        assert(no_ws(parts[parts.len() - 1]));
        let r = a + " "@ + l;
        assert forall|i: int| 0 <= i < r.len() && is_ws(#[trigger] r[i]) implies r[i] == ' ' by {
            if i < a.len() {
                assert(r[i] == a[i]);
            } else if i == a.len() {
                assert(r[i] == ' ');
            } else {
                assert(r[i] == l[i - a.len() - 1]);
            }
        }
    }
}

/// `compact` gives one line: whatever the error text held (newlines, tabs,
/// runs of blanks), the only whitespace left is single spaces. (For the
/// texts `compact` accepts; on the others it would panic.)
pub proof fn law_compact_single_line(s: Seq<char>)
    requires
        compactable(s),
    ensures
        single_line(compact_spec(s)),
{
    lemma_words_acc_no_ws(s);
    let (ws, cur) = words_acc(s);
    assert forall|j: int| 0 <= j < words(s).len() implies no_ws(#[trigger] words(s)[j]) by {
        if cur.len() > 0 && j == ws.len() {
            assert(words(s)[j] == cur);
        } else {
            assert(words(s)[j] == ws[j]);
        }
    }
    lemma_join_single_line(words(s));
    let c = collapsed(s);
    if utf8_len(c) > 180 {
        let w = choose|k: int| 0 <= k <= c.len() && #[trigger] utf8_len(c.take(k)) == 180;
        lemma_char_offset_unique(c, 180, w);
        let t = c.take(char_offset(c, 180));
        assert forall|i: int| 0 <= i < t.push('…').len() && is_ws(#[trigger] t.push('…')[i]) implies t.push(
            '…',
        )[i] == ' ' by {
            if i < t.len() {
                assert(t.push('…')[i] == c[i]);
            }
        }
    }
}

/// Whether `compact` accepts `value`.
#[verifier::spinoff_prover]
pub fn can_compact(value: &str) -> (b: bool)
    ensures
        b == compactable(value@),
{
    let ws = split_whitespace(value);
    let j = join(&ws, " ");
    let v = chars_of(j.as_str());
    match char_index_of_byte(&v, 180) {
        Some(k) => {
            proof {
                lemma_char_offset_unique(v@, 180, k as int);
            }
            true
        },
        None => {
            // No prefix encodes to exactly 180 bytes: the text is either
            // shorter (fine) or crosses byte 180 inside a character.
            !exceeds_180(&v)
        },
    }
}

/// Whether `v` encodes to more than 180 bytes.
fn exceeds_180(v: &Vec<char>) -> (b: bool)
    ensures
        b == (utf8_len(v@) > 180),
{
    let mut k: usize = 0;
    let mut bytes: usize = 0;
    while k < v.len() && bytes <= 180
        invariant
            k <= v.len(),
            bytes == utf8_len(v@.take(k as int)),
            bytes <= 184,
        decreases v.len() - k,
    {
        proof {
            crate::text::lemma_utf8_len_take_step(v@, k as int);
        }
        bytes = bytes + crate::text::len_utf8(v[k]);
        k = k + 1;
    }
    proof {
        crate::text::lemma_utf8_len_monotone(v@, k as int, v@.len() as int);
        assert(v@.take(v@.len() as int) =~= v@);
        if k == v.len() {
            assert(v@.take(k as int) =~= v@);
        }
    }
    bytes > 180
}

/// Shortens error text for a one-line report.
#[verifier::spinoff_prover]
pub fn compact(value: &str) -> (r: String)
    requires
        compactable(value@),
    ensures
        r@ == compact_spec(value@),
{
    let ws = split_whitespace(value);
    let j = join(&ws, " ");
    let v = chars_of(j.as_str());
    if exceeds_180(&v) {
        match char_index_of_byte(&v, 180) {
            Some(k) => {
                proof {
                    lemma_char_offset_unique(v@, 180, k as int);
                }
                let mut r = string_of_range(&v, 0, k);
                r.push('…');
                r
            },
            None => {
                assert(false);
                j
            },
        }
    } else {
        j
    }
}

} // verus!

verus! {

/// The first position at which `n` occurs in `h`.
#[verifier::opaque]
pub open spec fn first_occurrence(h: Seq<char>, n: Seq<char>) -> Option<int> {
    if exists|i: int| occurs_at(h, n, i) {
        Some(
            choose|i: int| occurs_at(h, n, i) && forall|j: int| 0 <= j < i ==> !occurs_at(h, n, j),
        )
    } else {
        None
    }
}

proof fn lemma_first_occurrence(h: Seq<char>, n: Seq<char>, i: int)
    requires
        occurs_at(h, n, i),
        forall|j: int| 0 <= j < i ==> !occurs_at(h, n, j),
    ensures
        first_occurrence(h, n) == Some(i),
{
    reveal(first_occurrence);
    let c = choose|c: int| occurs_at(h, n, c) && forall|j: int| 0 <= j < c ==> !occurs_at(h, n, j);
    assert(occurs_at(h, n, c) && forall|j: int| 0 <= j < c ==> !occurs_at(h, n, j));
    if c < i {
    } else if c > i {
    }
}

proof fn lemma_occurs_shift(h: Seq<char>, n: Seq<char>, pos: int, i: int)
    requires
        0 <= pos <= h.len(),
    ensures
        i >= 0 ==> occurs_at(h, n, i + pos) == occurs_at(h.skip(pos), n, i),
{
    if i >= 0 && i + pos + n.len() <= h.len() {
        assert(h.subrange(i + pos, i + pos + n.len()) =~= h.skip(pos).subrange(i, i + n.len()));
    }
}

/// The first whitespace position of `t`.
pub open spec fn first_ws(t: Seq<char>) -> Option<int> {
    if exists|i: int| 0 <= i < t.len() && is_ws(t[i]) {
        Some(
            choose|i: int|
                0 <= i < t.len() && is_ws(t[i]) && forall|j: int| 0 <= j < i ==> !is_ws(t[j]),
        )
    } else {
        None
    }
}

/// A Markdown link target without `<...>` brackets and without a title
/// after the first whitespace.
pub open spec fn clean_target(t: Seq<char>) -> Seq<char> {
    if t.len() > 0 && t[0] == '<' && t.last() == '>' {
        t.subrange(1, t.len() - 1)
    } else {
        match first_ws(t) {
            Some(i) => t.take(i),
            None => t,
        }
    }
}

/// The first position holding `#` or `?`.
pub open spec fn first_fragment(t: Seq<char>) -> Option<int> {
    if exists|i: int| 0 <= i < t.len() && (t[i] == '#' || t[i] == '?') {
        Some(
            choose|i: int|
                0 <= i < t.len() && (t[i] == '#' || t[i] == '?') && forall|j: int|
                    0 <= j < i ==> !(t[j] == '#' || t[j] == '?'),
        )
    } else {
        None
    }
}

/// The file part of a link target: everything before a `#` fragment or a
/// `?` query.
pub open spec fn path_part(t: Seq<char>) -> Seq<char> {
    match first_fragment(t) {
        Some(i) => t.take(i),
        None => t,
    }
}

/// The file parts of the local links in Markdown text `rest`, in order: for
/// every `](` the text up to the next `)`, trimmed and cleaned.
#[verifier::opaque]
pub open spec fn readme_links(rest: Seq<char>) -> Seq<Seq<char>>
    decreases rest.len(),
{
    match first_occurrence(rest, "]("@) {
        None => Seq::empty(),
        Some(s) => if s < 0 || s + 2 > rest.len() {
            Seq::empty()
        } else {
            let r2 = rest.skip(s + 2);
            match first_occurrence(r2, ")"@) {
                None => Seq::empty(),
                Some(e) => if e < 0 || e + 1 > r2.len() {
                    Seq::empty()
                } else {
                    let t = clean_target(trim_spec(r2.take(e)));
                    (if is_local_link_spec(t) {
                        seq![path_part(t)]
                    } else {
                        Seq::empty()
                    }) + readme_links(r2.skip(e + 1))
                },
            }
        },
    }
}

fn clean_link_target(t: &str) -> (r: String)
    ensures
        r@ == clean_target(t@),
{
    let v = chars_of(t);
    let n = v.len();
    if n > 0 && v[0] == '<' && v[n - 1] == '>' {
        return string_of_range(&v, 1, n - 1);
    }
    let mut i: usize = 0;
    while i < n
        invariant
            i <= n == v@.len(),
            v@ == t@,
            !(n > 0 && v@[0] == '<' && v@[n - 1] == '>'),
            forall|j: int| 0 <= j < i ==> !is_ws(v@[j]),
        decreases n - i,
    {
        if is_whitespace(v[i]) {
            proof {
                let c = choose|c: int|
                    0 <= c < t@.len() && is_ws(t@[c]) && forall|j: int| 0 <= j < c ==> !is_ws(t@[j]);
                assert(0 <= c < t@.len() && is_ws(t@[c]) && forall|j: int| 0 <= j < c ==> !is_ws(t@[j]));
                if c < i {
                } else if c > i {
                }
                assert(first_ws(t@) == Some(i as int));
            }
            let r = string_of_range(&v, 0, i);
            assert(r@ =~= t@.take(i as int));
            return r;
        }
        i = i + 1;
    }
    assert(first_ws(t@) is None);
    t.to_owned()
}

fn link_path_part(t: &str) -> (r: String)
    ensures
        r@ == path_part(t@),
{
    let v = chars_of(t);
    let n = v.len();
    let mut i: usize = 0;
    while i < n
        invariant
            i <= n == v@.len(),
            v@ == t@,
            forall|j: int| 0 <= j < i ==> !(v@[j] == '#' || v@[j] == '?'),
        decreases n - i,
    {
        if v[i] == '#' || v[i] == '?' {
            proof {
                let c = choose|c: int|
                    0 <= c < t@.len() && (t@[c] == '#' || t@[c] == '?') && forall|j: int|
                        0 <= j < c ==> !(t@[j] == '#' || t@[j] == '?');
                assert(0 <= c < t@.len() && (t@[c] == '#' || t@[c] == '?') && forall|j: int|
                    0 <= j < c ==> !(t@[j] == '#' || t@[j] == '?'));
                if c < i {
                } else if c > i {
                }
                assert(first_fragment(t@) == Some(i as int));
            }
            let r = string_of_range(&v, 0, i);
            assert(r@ =~= t@.take(i as int));
            return r;
        }
        i = i + 1;
    }
    assert(first_fragment(t@) is None);
    t.to_owned()
}

proof fn lemma_first_from(h: Seq<char>, n: Seq<char>, pos: int, found: Option<int>)
    requires
        0 <= pos <= h.len(),
        match found {
            Some(i) => pos <= i && occurs_at(h, n, i) && forall|j: int|
                pos <= j < i ==> !occurs_at(h, n, j),
            None => forall|j: int| pos <= j ==> !occurs_at(h, n, j),
        },
    ensures
        first_occurrence(h.skip(pos), n) == match found {
            Some(i) => Some(i - pos),
            None => None,
        },
{
    match found {
        Some(i) => {
            lemma_occurs_shift(h, n, pos, i - pos);
            assert forall|j: int| 0 <= j < i - pos implies !occurs_at(h.skip(pos), n, j) by {
                lemma_occurs_shift(h, n, pos, j);
            }
            lemma_first_occurrence(h.skip(pos), n, i - pos);
        },
        None => {
            assert forall|j: int| !occurs_at(h.skip(pos), n, j) by {
                if j >= 0 {
                    lemma_occurs_shift(h, n, pos, j);
                }
            }
            reveal(first_occurrence);
        },
    }
}

/// What one link contributes: its file part when it is local.
pub open spec fn link_item(t: Seq<char>) -> Seq<Seq<char>> {
    if is_local_link_spec(t) {
        seq![path_part(t)]
    } else {
        Seq::empty()
    }
}

proof fn lemma_readme_step(v: Seq<char>, pos: int, s: int, e: int)
    requires
        0 <= pos <= s,
        s + 2 <= e,
        e + 1 <= v.len(),
        first_occurrence(v.skip(pos), "]("@) == Some(s - pos),
        first_occurrence(v.skip(s + 2), ")"@) == Some(e - (s + 2)),
    ensures
        readme_links(v.skip(pos)) == link_item(clean_target(trim_spec(v.subrange(s + 2, e))))
            + readme_links(v.skip(e + 1)),
{
    reveal_with_fuel(readme_links, 1);
    let rest = v.skip(pos);
    let r2 = rest.skip(s - pos + 2);
    assert(r2 =~= v.skip(s + 2));
    assert(r2.take(e - (s + 2)) =~= v.subrange(s + 2, e));
    assert(r2.skip(e - (s + 2) + 1) =~= v.skip(e + 1));
}

proof fn lemma_readme_stop(v: Seq<char>, pos: int, s: Option<int>)
    requires
        0 <= pos <= v.len(),
        match s {
            None => first_occurrence(v.skip(pos), "]("@) is None,
            Some(s) => pos <= s && s + 2 <= v.len() && first_occurrence(v.skip(pos), "]("@) == Some(
                s - pos,
            ) && first_occurrence(v.skip(s + 2), ")"@) is None,
        },
    ensures
        readme_links(v.skip(pos)) == Seq::<Seq<char>>::empty(),
{
    reveal_with_fuel(readme_links, 1);
    if let Some(s) = s {
        let rest = v.skip(pos);
        assert(rest.skip(s - pos + 2) =~= v.skip(s + 2));
    }
}

/// The file parts of the local link targets in a README, in order.
#[verifier::spinoff_prover]
pub fn readme_link_targets(raw: &str) -> (r: Vec<String>)
    ensures
        views(r@) == readme_links(raw@),
{
    let v = chars_of(raw);
    let open = chars_of("](");
    let close = chars_of(")");
    let mut out: Vec<String> = Vec::new();
    let mut pos: usize = 0;
    assert(v@.skip(0) =~= v@);
    while pos <= v.len()
        invariant
            pos <= v.len() + 1,
            v@ == raw@,
            open@ == "]("@,
            close@ == ")"@,
            pos <= v.len() ==> readme_links(raw@) == views(out@) + readme_links(v@.skip(pos as int)),
            pos > v.len() ==> readme_links(raw@) == views(out@),
        decreases v.len() + 1 - pos,
    {
        let found = find_from(&v, &open, pos);
        proof {
            lemma_first_from(v@, "]("@, pos as int, match found {
                Some(i) => Some(i as int),
                None => None,
            });
        }
        match found {
            None => {
                proof {
                    lemma_readme_stop(v@, pos as int, None);
                    assert(views(out@) + Seq::<Seq<char>>::empty() =~= views(out@));
                }
                return out;
            },
            Some(s) => {
                proof {
                    reveal_strlit("](");
                    assert(open@.len() == 2);
                }
                let start = s + 2;
                let closing = find_from(&v, &close, start);
                proof {
                    lemma_first_from(v@, ")"@, start as int, match closing {
                        Some(i) => Some(i as int),
                        None => None,
                    });
                }
                match closing {
                    None => {
                        proof {
                            lemma_readme_stop(v@, pos as int, Some(s as int));
                            assert(views(out@) + Seq::<Seq<char>>::empty() =~= views(out@));
                        }
                        return out;
                    },
                    Some(e) => {
                        proof {
                            reveal_strlit(")");
                            assert(close@.len() == 1);
                            lemma_readme_step(v@, pos as int, s as int, e as int);
                        }
                        let inner = string_of_range(&v, start, e);
                        let trimmed = trim(inner.as_str());
                        let target = clean_link_target(trimmed.as_str());
                        let ghost before = views(out@);
                        if is_local_link(target.as_str()) {
                            let p = link_path_part(target.as_str());
                            out.push(p);
                            assert(views(out@) =~= before.push(p@));
                        }
                        proof {
                            assert(views(out@) =~= before + link_item(target@));
                        }
                        pos = e + 1;
                    },
                }
            },
        }
    }
    out
}

} // verus!

verus! {

/// What the binary found for one manifest file.
pub enum ManifestSource {
    /// There is no such file; its path as shown in reports.
    Missing(String),
    /// The file exists but could not be read.
    Unreadable { display: String, error: String },
    /// The file's text.
    Text(String),
}

/// The issues for the unsafe entries among `es`, in order.
pub open spec fn unsafe_entry_issues(es: Seq<Seq<char>>) -> Seq<Seq<char>> {
    es.filter(|e: Seq<char>| !is_safe_relative_spec(e)).map_values(
        |e: Seq<char>| "unsafe manifest path: "@ + e,
    )
}

/// The files named by the safe entries among `es`, under `home`, in order.
pub open spec fn safe_entry_paths(es: Seq<Seq<char>>, home: Seq<char>) -> Seq<Seq<char>> {
    es.filter(|e: Seq<char>| is_safe_relative_spec(e)).map_values(|e: Seq<char>| crate::paths::join_spec(home, e))
}

pub open spec fn source_issues(s: ManifestSource) -> Seq<Seq<char>> {
    match s {
        ManifestSource::Missing(d) => seq!["manifest missing ("@ + d@ + ")"@],
        ManifestSource::Text(c) => unsafe_entry_issues(manifest_entries_spec(c@)),
        ManifestSource::Unreadable { .. } => Seq::empty(),
    }
}

pub open spec fn source_paths(s: ManifestSource, home: Seq<char>) -> Seq<Seq<char>> {
    match s {
        ManifestSource::Text(c) => safe_entry_paths(manifest_entries_spec(c@), home),
        _ => Seq::empty(),
    }
}

/// The issues raised by the manifests `ss`, in order.
pub open spec fn sources_issues(ss: Seq<ManifestSource>) -> Seq<Seq<char>>
    decreases ss.len(),
{
    if ss.len() == 0 {
        Seq::empty()
    } else {
        sources_issues(ss.drop_last()) + source_issues(ss.last())
    }
}

/// The files named by the manifests `ss`, in order, duplicates included.
pub open spec fn sources_paths(ss: Seq<ManifestSource>, home: Seq<char>) -> Seq<Seq<char>>
    decreases ss.len(),
{
    if ss.len() == 0 {
        Seq::empty()
    } else {
        sources_paths(ss.drop_last(), home) + source_paths(ss.last(), home)
    }
}

proof fn lemma_entry_step(es: Seq<Seq<char>>, e: int, home: Seq<char>)
    requires
        0 <= e < es.len(),
    ensures
        unsafe_entry_issues(es.take(e + 1)) == unsafe_entry_issues(es.take(e)) + (
        if is_safe_relative_spec(es[e]) {
            Seq::empty()
        } else {
            seq!["unsafe manifest path: "@ + es[e]]
        }),
        safe_entry_paths(es.take(e + 1), home) == safe_entry_paths(es.take(e), home) + (
        if is_safe_relative_spec(es[e]) {
            seq![crate::paths::join_spec(home, es[e])]
        } else {
            Seq::empty()
        }),
{
    let t = es.take(e);
    assert(es.take(e + 1) =~= t.push(es[e]));
    let bad = |x: Seq<char>| !is_safe_relative_spec(x);
    let good = |x: Seq<char>| is_safe_relative_spec(x);
    t.lemma_filter_push(es[e], bad);
    t.lemma_filter_push(es[e], good);
    assert(unsafe_entry_issues(es.take(e + 1)) =~= unsafe_entry_issues(t) + (
    if is_safe_relative_spec(es[e]) {
        Seq::empty()
    } else {
        seq!["unsafe manifest path: "@ + es[e]]
    }));
    assert(safe_entry_paths(es.take(e + 1), home) =~= safe_entry_paths(t, home) + (
    if is_safe_relative_spec(es[e]) {
        seq![crate::paths::join_spec(home, es[e])]
    } else {
        Seq::empty()
    }));
}

/// The files to validate: the safe entries of the readable manifests joined
/// onto `home`, each path once (as first written), in path order. A missing
/// manifest and each unsafe entry add an issue; an unreadable manifest
/// stops everything with an error (the issues found before it are kept).
#[verifier::spinoff_prover]
pub fn manifest_files(sources: &Vec<ManifestSource>, home: &str, report: &mut Report) -> (r: Result<
    Vec<String>,
    String,
>)
    ensures
        final(report).notes_view() == old(report).notes_view(),
        match r {
            Ok(files) => {
                &&& forall|j: int| 0 <= j < sources@.len() ==> !(sources@[j] is Unreadable)
                &&& final(report).issues_view() == old(report).issues_view() + sources_issues(
                    sources@,
                )
                &&& is_path_set(views(files@), sources_paths(sources@, home@))
            },
            Err(e) => exists|n: int|
                #![trigger sources@[n]]
                {
                    &&& 0 <= n < sources@.len()
                    &&& forall|j: int| 0 <= j < n ==> !(sources@[j] is Unreadable)
                    &&& sources@[n] matches ManifestSource::Unreadable { display, error }
                    &&& e@ == "failed to read "@ + display@ + ": "@ + error@
                    &&& final(report).issues_view() == old(report).issues_view() + sources_issues(
                        sources@.take(n),
                    )
                },
        },
{
    let mut set = PathSet::new();
    let mut s: usize = 0;
    assert(sources@.take(0) =~= Seq::<ManifestSource>::empty());
    while s < sources.len()
        invariant
            s <= sources@.len(),
            report.notes_view() == old(report).notes_view(),
            forall|j: int| 0 <= j < s ==> !(sources@[j] is Unreadable),
            report.issues_view() == old(report).issues_view() + sources_issues(
                sources@.take(s as int),
            ),
            is_path_set(set.view_paths(), sources_paths(sources@.take(s as int), home@)),
        decreases sources@.len() - s,
    {
        let ghost base_issues = report.issues_view();
        let ghost base_paths = sources_paths(sources@.take(s as int), home@);
        proof {
            let t1 = sources@.take(s + 1);
            assert(t1.drop_last() =~= sources@.take(s as int));
            assert(t1.last() == sources@[s as int]);
        }
        match &sources[s] {
            ManifestSource::Missing(d) => {
                let mut m = concat("manifest missing (", d.as_str());
                push_str(&mut m, ")");
                report.issue(m);
                assert(sources_paths(sources@.take(s + 1), home@) =~= base_paths);
            },
            ManifestSource::Unreadable { display, error } => {
                let mut e = concat("failed to read ", display.as_str());
                push_str(&mut e, ": ");
                push_str(&mut e, error.as_str());
                return Err(e);
            },
            ManifestSource::Text(c) => {
                let entries = parse_manifest(c.as_str());
                let ghost es = manifest_entries_spec(c@);
                let mut e: usize = 0;
                assert(es.take(0) =~= Seq::<Seq<char>>::empty());
                while e < entries.len()
                    invariant
                        e <= entries@.len(),
                        views(entries@) == es,
                        report.notes_view() == old(report).notes_view(),
                        report.issues_view() == base_issues + unsafe_entry_issues(es.take(e as int)),
                        is_path_set(
                            set.view_paths(),
                            base_paths + safe_entry_paths(es.take(e as int), home@),
                        ),
                    decreases entries@.len() - e,
                {
                    let x = entries[e].as_str();
                    proof {
                        assert(es[e as int] == x@);
                        lemma_entry_step(es, e as int, home@);
                    }
                    if is_safe_relative_path(x) {
                        let p = join_path(home, x);
                        let ghost before = set.view_paths();
                        let ghost cands = base_paths + safe_entry_paths(es.take(e as int), home@);
                        let ghost pv = p@;
                        set.insert(p);
                        proof {
                            lemma_path_set_insert(before, set.view_paths(), cands, pv);
                            assert(cands.push(pv) =~= base_paths + safe_entry_paths(
                                es.take(e + 1),
                                home@,
                            ));
                        }
                        assert(report.issues_view() =~= base_issues + unsafe_entry_issues(
                            es.take(e + 1),
                        ));
                    } else {
                        let m = concat("unsafe manifest path: ", x);
                        report.issue(m);
                        assert(report.issues_view() =~= base_issues + unsafe_entry_issues(
                            es.take(e + 1),
                        ));
                        assert(base_paths + safe_entry_paths(es.take(e + 1), home@) =~= base_paths
                            + safe_entry_paths(es.take(e as int), home@));
                    }
                    e = e + 1;
                }
                assert(es.take(es.len() as int) =~= es);
            },
        }
        s = s + 1;
    }
    assert(sources@.take(sources@.len() as int) =~= sources@);
    Ok(set.into_paths())
}

/// Every file named by the manifests is a safe entry joined onto `home`.
proof fn lemma_sources_paths_safe(ss: Seq<ManifestSource>, home: Seq<char>, x: Seq<char>)
    requires
        sources_paths(ss, home).contains(x),
    ensures
        exists|e: Seq<char>| is_safe_relative_spec(e) && x == crate::paths::join_spec(home, e),
    decreases ss.len(),
{
    let init = ss.drop_last();
    let before = sources_paths(init, home);
    let last = source_paths(ss.last(), home);
    let k = choose|k: int| 0 <= k < sources_paths(ss, home).len() && sources_paths(ss, home)[k] == x;
    if k < before.len() {
        assert(before[k] == x);
        lemma_sources_paths_safe(init, home, x);
    } else {
        assert(last[k - before.len()] == x);
        if let ManifestSource::Text(c) = ss.last() {
            let es = manifest_entries_spec(c@);
            let good = |e: Seq<char>| is_safe_relative_spec(e);
            let f = es.filter(good);
            let i = k - before.len();
            assert(0 <= i < f.len());
            es.lemma_filter_pred(good, i);
            assert(x == crate::paths::join_spec(home, f[i]));
        }
    }
}

/// Validation only ever looks at files inside the home directory: each
/// file `manifest_files` lists has the home directory's components first
/// and no `..` after them.
pub proof fn law_manifest_files_inside_home(
    sources: Seq<ManifestSource>,
    home: Seq<char>,
    files: Seq<Seq<char>>,
)
    requires
        is_path_set(files, sources_paths(sources, home)),
    ensures
        forall|i: int|
            0 <= i < files.len() ==> components(home).is_prefix_of(components(#[trigger] files[i])),
        forall|i: int, k: int|
            0 <= i < files.len() && components(home).len() <= k < components(files[i]).len()
                ==> #[trigger] components(files[i])[k] != seq!['.', '.'],
{
    assert forall|i: int| 0 <= i < files.len() implies components(home).is_prefix_of(
        components(#[trigger] files[i]),
    ) && forall|k: int|
        components(home).len() <= k < components(files[i]).len() ==> #[trigger] components(
            files[i],
        )[k] != seq!['.', '.'] by {
        assert(sources_paths(sources, home).contains(files[i]));
        lemma_sources_paths_safe(sources, home, files[i]);
        let e = choose|e: Seq<char>|
            is_safe_relative_spec(e) && files[i] == crate::paths::join_spec(home, e);
        law_safe_join_stays_inside(home, e);
    }
}

/// Which checks apply to one manifest file.
pub struct FileChecks {
    pub shell: bool,
    pub toml: bool,
    pub lua: bool,
    pub svg: bool,
    pub readme_links: bool,
}

/// The checks for a file with this file name and extension: shell syntax
/// for `*.sh`, `.bashrc` and `.bash_profile`; TOML for `*.toml`; Lua for
/// `*.lua`; SVG for `*.svg`; README links for `*.md` and `*.markdown`;
/// each only when switched on.
pub fn file_checks(file_name: &str, extension: &str, cfg: &ValidationConfig) -> (c: FileChecks)
    ensures
        c.shell == (cfg.check_shell && (extension@ == "sh"@ || file_name@ == ".bashrc"@
            || file_name@ == ".bash_profile"@)),
        c.toml == (cfg.check_toml && extension@ == "toml"@),
        c.lua == (cfg.check_lua && extension@ == "lua"@),
        c.svg == (cfg.check_svg && extension@ == "svg"@),
        c.readme_links == (cfg.check_readme_links && (extension@ == "md"@ || extension@
            == "markdown"@)),
{
    FileChecks {
        shell: cfg.check_shell && (str_eq(extension, "sh") || str_eq(file_name, ".bashrc")
            || str_eq(file_name, ".bash_profile")),
        toml: cfg.check_toml && str_eq(extension, "toml"),
        lua: cfg.check_lua && str_eq(extension, "lua"),
        svg: cfg.check_svg && str_eq(extension, "svg"),
        readme_links: cfg.check_readme_links && (str_eq(extension, "md") || str_eq(
            extension,
            "markdown",
        )),
    }
}

/// The read-only syntax checkers.
pub enum SyntaxTool {
    Bash,
    Luac,
    Xmllint,
}

/// The program and the arguments placed before the file's path.
pub fn syntax_command(tool: SyntaxTool) -> (r: (&'static str, &'static str))
    ensures
        match tool {
            SyntaxTool::Bash => r.0@ == "bash"@ && r.1@ == "-n"@,
            SyntaxTool::Luac => r.0@ == "luac"@ && r.1@ == "-p"@,
            SyntaxTool::Xmllint => r.0@ == "xmllint"@ && r.1@ == "--noout"@,
        },
{
    match tool {
        SyntaxTool::Bash => ("bash", "-n"),
        SyntaxTool::Luac => ("luac", "-p"),
        SyntaxTool::Xmllint => ("xmllint", "--noout"),
    }
}

/// The issue for a manifest file that does not exist.
pub fn missing_file_issue(display: &str) -> (r: String)
    ensures
        r@ == "missing file ("@ + display@ + ")"@,
{
    let mut r = concat("missing file (", display);
    push_str(&mut r, ")");
    r
}

/// The issue for a failed syntax check, with the checker's compacted stderr.
pub fn syntax_failure_issue(display: &str, stderr: &str) -> (r: String)
    requires
        compactable(stderr@),
    ensures
        r@ == display@ + " check failed: "@ + compact_spec(stderr@),
{
    let mut r = concat(display, " check failed: ");
    push_str(&mut r, compact(stderr).as_str());
    r
}

/// The issue when a checker could not be run at all.
pub fn syntax_spawn_issue(command: &str, display: &str, error: &str) -> (r: String)
    ensures
        r@ == command@ + " failed for "@ + display@ + ": "@ + error@,
{
    let mut r = concat(command, " failed for ");
    push_str(&mut r, display);
    push_str(&mut r, ": ");
    push_str(&mut r, error);
    r
}

/// The note when Lua syntax checks cannot run.
pub fn luac_missing_note() -> (r: String)
    ensures
        r@ == "luac not installed; Lua syntax checks skipped"@,
{
    "luac not installed; Lua syntax checks skipped".to_owned()
}

/// Without `xmllint`, an SVG only has to hold an `<svg` opening and a
/// `</svg>` closing: the issue (if any) and the note for one file, from its
/// text (`None` when it could not be read, which is itself an issue and
/// adds no note).
pub fn svg_fallback(display: &str, contents: Option<&str>) -> (r: (Option<String>, Option<String>))
    ensures
        match contents {
            None => r.0 is Some && r.0->0@ == "cannot read SVG ("@ + display@ + ")"@ && r.1 is None,
            Some(raw) => {
                &&& (r.0 is Some) == (!contains_spec(raw@, "<svg"@) || !contains_spec(
                    raw@,
                    "</svg>"@,
                ))
                &&& r.0 is Some ==> r.0->0@ == display@ + " does not contain a complete SVG root"@
                &&& r.1 is Some && r.1->0@
                    == "xmllint not installed; SVG checks used a root-element fallback"@
            },
        },
{
    match contents {
        None => {
            let mut m = concat("cannot read SVG (", display);
            push_str(&mut m, ")");
            (Some(m), None)
        },
        Some(raw) => {
            let issue = if !contains(raw, "<svg") || !contains(raw, "</svg>") {
                Some(concat(display, " does not contain a complete SVG root"))
            } else {
                None
            };
            (issue, Some("xmllint not installed; SVG checks used a root-element fallback".to_owned()))
        },
    }
}

/// The error message the `toml` crate reports for `text`, if it does not
/// parse as a TOML document.
pub uninterp spec fn toml_error_text(text: Seq<char>) -> Option<Seq<char>>;

/// `toml::from_str::<toml::Value>(text)`: `None` when `text` is a valid TOML
/// document, otherwise the parser's error rendered with `to_string()`.
/// Which documents are valid, and the error text, are the `toml` crate's:
/// they are named, not stated.
#[verifier::external_body]
fn toml_syntax_error(text: &str) -> (r: Option<String>)
    ensures
        match r {
            Some(e) => toml_error_text(text@) == Some(e@),
            None => toml_error_text(text@) is None,
        },
{
    toml::from_str::<toml::Value>(text).err().map(|e| e.to_string())
}

/// The TOML issue for a file, given the error its text gave (the parser's
/// message, or the read error), if any: `Ok(None)` for no error,
/// `Ok(Some(issue))` naming the file and the error shortened to one line;
/// `Err(error)` when the error text cannot be shortened at a character
/// boundary (where the daemon's one-line rendering would fail).
pub fn toml_issue_for(display: &str, error: Option<&str>) -> (r: Result<Option<String>, String>)
    ensures
        match error {
            None => r == Ok::<Option<String>, String>(None),
            Some(e) => if compactable(e@) {
                r is Ok && r->Ok_0 is Some && r->Ok_0->0@ == display@ + " TOML: "@ + compact_spec(
                    e@,
                )
            } else {
                r is Err && r->Err_0@ == e@
            },
        },
{
    match error {
        None => Ok(None),
        Some(e) => {
            if can_compact(e) {
                let mut m = concat(display, " TOML: ");
                push_str(&mut m, compact(e).as_str());
                Ok(Some(m))
            } else {
                Err(e.to_owned())
            }
        },
    }
}

/// The TOML issue for a file, given what reading it gave: its text, or the
/// read error. The text is handed to the `toml` parser, and its verdict
/// (or the read error) decides the issue as `toml_issue_for` says.
pub fn toml_issue(display: &str, read: Result<&str, &str>) -> (r: Result<Option<String>, String>)
    ensures
        ({
            let err = match read {
                Ok(text) => toml_error_text(text@),
                Err(e) => Some(e@),
            };
            match err {
                None => r == Ok::<Option<String>, String>(None),
                Some(e) => if compactable(e) {
                    r is Ok && r->Ok_0 is Some && r->Ok_0->0@ == display@ + " TOML: "@
                        + compact_spec(e)
                } else {
                    r is Err && r->Err_0@ == e
                },
            }
        }),
{
    match read {
        Ok(text) => {
            let err = toml_syntax_error(text);
            match err {
                Some(e) => toml_issue_for(display, Some(e.as_str())),
                None => toml_issue_for(display, None),
            }
        },
        Err(e) => toml_issue_for(display, Some(e)),
    }
}

/// The issue when a README cannot be read.
pub fn unreadable_readme_issue(display: &str) -> (r: String)
    ensures
        r@ == "cannot read README ("@ + display@ + ")"@,
{
    let mut r = concat("cannot read README (", display);
    push_str(&mut r, ")");
    r
}

/// The issue for a local link whose target does not exist.
pub fn missing_link_issue(display: &str, target: &str) -> (r: String)
    ensures
        r@ == display@ + " links to missing "@ + target@,
{
    let mut r = concat(display, " links to missing ");
    push_str(&mut r, target);
    r
}

/// The latest GitHub Actions run of a repository, as `gh run list` reports it.
#[derive(Debug)]
pub struct WorkflowRun {
    pub status: String,
    pub conclusion: Option<String>,
    pub workflow_name: String,
    pub head_branch: String,
    pub url: String,
}

/// The `gh` arguments listing a repository's latest run, optionally of one
/// workflow (an empty workflow name counts as none).
pub open spec fn ci_query_spec(repository: Seq<char>, workflow: Option<Seq<char>>) -> Seq<
    Seq<char>,
> {
    seq![
        "run"@,
        "list"@,
        "--repo"@,
        repository,
        "--limit"@,
        "1"@,
        "--json"@,
        "status,conclusion,workflowName,headBranch,url"@,
    ] + match workflow {
        Some(w) if w.len() > 0 => seq!["--workflow"@, w],
        _ => Seq::empty(),
    }
}

pub fn ci_query_args(repository: &str, workflow: Option<&str>) -> (r: Vec<String>)
    ensures
        views(r@) == ci_query_spec(
            repository@,
            match workflow {
                Some(w) => Some(w@),
                None => None,
            },
        ),
{
    let mut r: Vec<String> = Vec::new();
    r.push("run".to_owned());
    r.push("list".to_owned());
    r.push("--repo".to_owned());
    r.push(repository.to_owned());
    r.push("--limit".to_owned());
    r.push("1".to_owned());
    r.push("--json".to_owned());
    r.push("status,conclusion,workflowName,headBranch,url".to_owned());
    let ghost base = views(r@);
    if let Some(w) = workflow {
        if !w.is_empty() {
            r.push("--workflow".to_owned());
            r.push(w.to_owned());
        }
    }
    proof {
        let expect = seq![
            "run"@,
            "list"@,
            "--repo"@,
            repository@,
            "--limit"@,
            "1"@,
            "--json"@,
            "status,conclusion,workflowName,headBranch,url"@,
        ];
        assert(base =~= expect);
        assert(views(r@) =~= expect + match workflow {
            Some(w) if w@.len() > 0 => seq!["--workflow"@, w@],
            _ => Seq::<Seq<char>>::empty(),
        });
    }
    r
}

/// The outcome of querying one repository's CI.
pub enum CiResponse {
    /// `gh` could not be run.
    SpawnFailed(String),
    /// `gh` exited unsuccessfully with this stderr.
    Failed(String),
    /// The output was not the expected JSON; the parser's message.
    Invalid(String),
    /// The runs listed (at most one was asked for).
    Runs(Vec<WorkflowRun>),
}

/// What one repository's CI check adds to the report.
pub enum CiFinding {
    Nothing,
    Issue(String),
    Note(String),
}

pub open spec fn run_line(repository: Seq<char>, run: WorkflowRun, state: Seq<char>) -> Seq<char> {
    repository + " latest "@ + run.workflow_name@ + " run is "@ + state + " ("@ + run.head_branch@
        + ") — "@ + run.url@
}

/// The finding for a repository: an invalid name, a failed query, an
/// unreadable answer or no runs are issues; the latest run is fine when
/// completed successfully, an issue when completed otherwise, and a note
/// while it has not completed.
pub open spec fn ci_finding_spec(repository: Seq<char>, response: CiResponse, f: CiFinding) -> bool {
    match response {
        CiResponse::SpawnFailed(e) => f matches CiFinding::Issue(m) && m@ == repository
            + " CI check failed: "@ + e@,
        CiResponse::Failed(stderr) => f matches CiFinding::Issue(m) && m@ == repository
            + " CI check failed: "@ + compact_spec(stderr@),
        CiResponse::Invalid(e) => f matches CiFinding::Issue(m) && m@ == repository
            + " CI response was invalid: "@ + e@,
        CiResponse::Runs(runs) => if runs@.len() == 0 {
            f matches CiFinding::Issue(m) && m@ == repository + " has no GitHub Actions runs"@
        } else {
            let run = runs@[0];
            if run.status@ == "completed"@ && run.conclusion is Some {
                if run.conclusion->0@ == "success"@ {
                    f is Nothing
                } else {
                    f matches CiFinding::Issue(m) && m@ == run_line(
                        repository,
                        run,
                        run.conclusion->0@,
                    )
                }
            } else {
                f matches CiFinding::Note(m) && m@ == run_line(repository, run, run.status@)
            }
        },
    }
}

/// The issue for a repository name that is not a plain `owner/name`.
pub fn invalid_repository_issue(repository: &str) -> (r: String)
    ensures
        r@ == "invalid GitHub repository name: "@ + repository@,
{
    concat("invalid GitHub repository name: ", repository)
}

/// What checking one repository's CI starts with: the `gh` arguments for
/// a plain `owner/name`, or the issue for any other name (no query is run).
pub fn ci_plan(repository: &str, workflow: Option<&str>) -> (r: Result<Vec<String>, String>)
    ensures
        is_safe_repository_spec(repository@) ==> r is Ok && views(r->Ok_0@) == ci_query_spec(
            repository@,
            match workflow {
                Some(w) => Some(w@),
                None => None,
            },
        ),
        !is_safe_repository_spec(repository@) ==> r is Err && r->Err_0@
            == "invalid GitHub repository name: "@ + repository@,
{
    if is_safe_repository(repository) {
        Ok(ci_query_args(repository, workflow))
    } else {
        Err(invalid_repository_issue(repository))
    }
}

fn run_text(repository: &str, run: &WorkflowRun, state: &str) -> (r: String)
    ensures
        r@ == run_line(repository@, *run, state@),
{
    let mut r = concat(repository, " latest ");
    push_str(&mut r, run.workflow_name.as_str());
    push_str(&mut r, " run is ");
    push_str(&mut r, state);
    push_str(&mut r, " (");
    push_str(&mut r, run.head_branch.as_str());
    push_str(&mut r, ") — ");
    push_str(&mut r, run.url.as_str());
    r
}

pub fn ci_finding(repository: &str, response: &CiResponse) -> (f: CiFinding)
    requires
        response matches CiResponse::Failed(stderr) ==> compactable(stderr@),
    ensures
        ci_finding_spec(repository@, *response, f),
{
    match response {
        CiResponse::SpawnFailed(e) => {
            let mut m = concat(repository, " CI check failed: ");
            push_str(&mut m, e.as_str());
            CiFinding::Issue(m)
        },
        CiResponse::Failed(stderr) => {
            let mut m = concat(repository, " CI check failed: ");
            push_str(&mut m, compact(stderr.as_str()).as_str());
            CiFinding::Issue(m)
        },
        CiResponse::Invalid(e) => {
            let mut m = concat(repository, " CI response was invalid: ");
            push_str(&mut m, e.as_str());
            CiFinding::Issue(m)
        },
        CiResponse::Runs(runs) => {
            if runs.len() == 0 {
                return CiFinding::Issue(concat(repository, " has no GitHub Actions runs"));
            }
            let run = &runs[0];
            if str_eq(run.status.as_str(), "completed") {
                if let Some(c) = &run.conclusion {
                    if str_eq(c.as_str(), "success") {
                        return CiFinding::Nothing;
                    }
                    return CiFinding::Issue(run_text(repository, run, c.as_str()));
                }
            }
            CiFinding::Note(run_text(repository, run, run.status.as_str()))
        },
    }
}

/// A text without the separator splits into itself alone.
proof fn lemma_split_char_none(s: Seq<char>, sep: char)
    requires
        !s.contains(sep),
    ensures
        split_char(s, sep) == seq![s],
    decreases s.len(),
{
    if s.len() > 0 {
        assert(!s.drop_last().contains(sep)) by {
            if s.drop_last().contains(sep) {
                let i = choose|i: int| 0 <= i < s.drop_last().len() && s.drop_last()[i] == sep;
                assert(s[i] == sep);
            }
        }
        lemma_split_char_none(s.drop_last(), sep);
        assert(s.last() != sep) by {
            assert(s[s.len() - 1] == s.last());
        }
        assert(s.drop_last().push(s.last()) =~= s);
        assert(seq![s.drop_last()].update(0, s.drop_last().push(s.last())) =~= seq![s]);
    } else {
        assert(s =~= Seq::<char>::empty());
    }
}

/// Text, the separator, then a piece without it: the split of the text
/// with that piece added as its last part.
proof fn lemma_split_char_then(a: Seq<char>, sep: char, b: Seq<char>)
    requires
        !b.contains(sep),
    ensures
        split_char(a + seq![sep] + b, sep) == split_char(a, sep).push(b),
    decreases b.len(),
{
    let s = a + seq![sep] + b;
    if b.len() == 0 {
        assert(s.drop_last() =~= a);
        assert(s.last() == sep);
        assert(b =~= Seq::<char>::empty());
    } else {
        assert(!b.drop_last().contains(sep)) by {
            if b.drop_last().contains(sep) {
                let i = choose|i: int| 0 <= i < b.drop_last().len() && b.drop_last()[i] == sep;
                assert(b[i] == sep);
            }
        }
        lemma_split_char_then(a, sep, b.drop_last());
        assert(s.drop_last() =~= a + seq![sep] + b.drop_last());
        assert(s.last() == b.last());
        assert(b.last() != sep) by {
            assert(b[b.len() - 1] == b.last());
        }
        let rest = split_char(a, sep).push(b.drop_last());
        assert(b.drop_last().push(b.last()) =~= b);
        assert(rest.update(rest.len() - 1, rest.last().push(b.last())) =~= split_char(a, sep).push(
            b,
        ));
    }
}

/// Every `owner/name` whose owner is made of ASCII letters, digits, `-`
/// and `_`, and whose name is made of those and `.`, both non-empty, is a
/// safe repository; and every safe repository is of that form.
pub proof fn law_safe_repository_shape(o: Seq<char>, n: Seq<char>)
    ensures
        (o.len() > 0 && n.len() > 0 && (forall|i: int|
            0 <= i < o.len() ==> ('a' <= #[trigger] o[i] <= 'z') || ('A' <= o[i] <= 'Z') || (
            '0' <= o[i] <= '9') || o[i] == '-' || o[i] == '_') && (forall|i: int|
            0 <= i < n.len() ==> ('a' <= #[trigger] n[i] <= 'z') || ('A' <= n[i] <= 'Z') || (
            '0' <= n[i] <= '9') || n[i] == '-' || n[i] == '_' || n[i] == '.')) ==> is_safe_repository_spec(
            o + seq!['/'] + n,
        ),
        (!o.contains('/') && !n.contains('/') && is_safe_repository_spec(o + seq!['/'] + n)) ==> (
        o.len() > 0 && n.len() > 0 && (forall|i: int|
            0 <= i < o.len() ==> ('a' <= #[trigger] o[i] <= 'z') || ('A' <= o[i] <= 'Z') || (
            '0' <= o[i] <= '9') || o[i] == '-' || o[i] == '_') && (forall|i: int|
            0 <= i < n.len() ==> ('a' <= #[trigger] n[i] <= 'z') || ('A' <= n[i] <= 'Z') || (
            '0' <= n[i] <= '9') || n[i] == '-' || n[i] == '_' || n[i] == '.')),
{
    let no_slash_o = !o.contains('/');
    let no_slash_n = !n.contains('/');
    let o_ok = forall|i: int|
        0 <= i < o.len() ==> ('a' <= #[trigger] o[i] <= 'z') || ('A' <= o[i] <= 'Z') || ('0' <= o[i]
            <= '9') || o[i] == '-' || o[i] == '_';
    let n_ok = forall|i: int|
        0 <= i < n.len() ==> ('a' <= #[trigger] n[i] <= 'z') || ('A' <= n[i] <= 'Z') || ('0' <= n[i]
            <= '9') || n[i] == '-' || n[i] == '_' || n[i] == '.';
    if o_ok {
        assert(!o.contains('/')) by {
            if o.contains('/') {
                let i = choose|i: int| 0 <= i < o.len() && o[i] == '/';
                assert(o[i] == '/');
            }
        }
    }
    if n_ok {
        assert(!n.contains('/')) by {
            if n.contains('/') {
                let i = choose|i: int| 0 <= i < n.len() && n[i] == '/';
                assert(n[i] == '/');
            }
        }
    }
    if (o_ok || no_slash_o) && (n_ok || no_slash_n) {
        lemma_split_char_none(o, '/');
        lemma_split_char_then(o, '/', n);
        let parts = split_char(o + seq!['/'] + n, '/');
        assert(parts =~= seq![o, n]);
        assert(parts[0] == o && parts[1] == n);
    }
}


/// The parts of a split hold no separator, and joined back with it they
/// give the text again.
proof fn lemma_split_char_rejoins(s: Seq<char>, sep: char)
    ensures
        forall|i: int|
            0 <= i < split_char(s, sep).len() ==> !(#[trigger] split_char(s, sep)[i]).contains(sep),
        join_spec(split_char(s, sep), seq![sep]) == s,
    decreases s.len(),
{
    crate::text::lemma_split_char_len(s, sep);
    if s.len() == 0 {
        assert(split_char(s, sep) =~= seq![Seq::<char>::empty()]);
        assert(s =~= Seq::<char>::empty());
    } else {
        let pre = s.drop_last();
        let c = s.last();
        lemma_split_char_rejoins(pre, sep);
        crate::text::lemma_split_char_len(pre, sep);
        let rest = split_char(pre, sep);
        assert(pre.push(c) =~= s);
        if c == sep {
            let q = rest.push(Seq::<char>::empty());
            assert(split_char(s, sep) == q);
            assert(q.drop_last() =~= rest);
            assert(join_spec(q, seq![sep]) == join_spec(rest, seq![sep]) + seq![sep] + q.last());
            assert(join_spec(q, seq![sep]) =~= s);
            assert forall|i: int| 0 <= i < q.len() implies !(#[trigger] q[i]).contains(sep) by {
                if i < rest.len() {
                    assert(q[i] == rest[i]);
                } else {
                    assert(q[i] =~= Seq::<char>::empty());
                }
            }
        } else {
            let last = rest.last().push(c);
            let q = rest.update(rest.len() - 1, last);
            assert(split_char(s, sep) == q);
            assert(!last.contains(sep)) by {
                assert(!rest[rest.len() - 1].contains(sep));
                if last.contains(sep) {
                    let j = choose|j: int| 0 <= j < last.len() && last[j] == sep;
                    if j < last.len() - 1 {
                        assert(rest.last()[j] == sep);
                    }
                }
            }
            assert forall|i: int| 0 <= i < q.len() implies !(#[trigger] q[i]).contains(sep) by {
                if i < rest.len() - 1 {
                    assert(q[i] == rest[i]);
                }
            }
            if rest.len() == 1 {
                assert(join_spec(rest, seq![sep]) == rest[0]);
                assert(join_spec(q, seq![sep]) == q[0]);
                assert(q[0] =~= s);
            } else {
                assert(q.drop_last() =~= rest.drop_last());
                assert(join_spec(q, seq![sep]) == join_spec(rest.drop_last(), seq![sep]) + seq![sep]
                    + q.last());
                assert(join_spec(rest, seq![sep]) == join_spec(rest.drop_last(), seq![sep]) + seq![
                    sep,
                ] + rest.last());
                assert(join_spec(q, seq![sep]) =~= s);
            }
        }
    }
}

/// A safe repository has exactly one `/`: it is an owner and a name,
/// neither holding a `/`, joined by one.
pub proof fn law_safe_repository_has_one_slash(r: Seq<char>)
    ensures
        is_safe_repository_spec(r) ==> exists|o: Seq<char>, n: Seq<char>|
            !o.contains('/') && !n.contains('/') && r == #[trigger] (o + seq!['/'] + n),
{
    if is_safe_repository_spec(r) {
        lemma_split_char_rejoins(r, '/');
        let parts = split_char(r, '/');
        let o = parts[0];
        let n = parts[1];
        assert(parts.drop_last() =~= seq![o]);
        assert(join_spec(parts, seq!['/']) == join_spec(seq![o], seq!['/']) + seq!['/'] + n);
        assert(!o.contains('/'));
        assert(!n.contains('/'));
        assert(r == o + seq!['/'] + n);
    }
}

} // verus!
