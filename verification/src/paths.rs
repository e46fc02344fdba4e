//! Path handling on the textual form of Unix paths: joining, `~`
//! expansion and the safety checks that keep manifest entries and names
//! inside the directory they are meant for.

use vstd::prelude::*;
use crate::text::{
    chars_of, concat, copy_str, join, join_spec as join_pieces, push_str, split_char, split_on,
    str_eq, string_of_range, views,
};

verus! {

/// `base.join(rest)` for Unix paths: an absolute `rest` replaces `base`; an
/// empty `base` yields `rest`; otherwise one `/` separates them unless `base`
/// already ends with one.
pub open spec fn join_spec(base: Seq<char>, rest: Seq<char>) -> Seq<char> {
    if rest.len() > 0 && rest[0] == '/' {
        rest
    } else if base.len() == 0 {
        rest
    } else if base.last() == '/' {
        base + rest
    } else {
        base + seq!['/'] + rest
    }
}

/// `Path::join`.
pub fn join_path(base: &str, rest: &str) -> (r: String)
    ensures
        r@ == join_spec(base@, rest@),
{
    let b = chars_of(base);
    let t = chars_of(rest);
    if t.len() > 0 && t[0] == '/' {
        copy_str(rest)
    } else if b.len() == 0 {
        copy_str(rest)
    } else if b[b.len() - 1] == '/' {
        concat(base, rest)
    } else {
        let mut r = copy_str(base);
        r.push('/');
        push_str(&mut r, rest);
        r
    }
}

/// `~` expansion: a value starting with `~/` is joined onto the home
/// directory when one is known; any other value is returned as it is.
pub open spec fn expand_home_spec(s: Seq<char>, home: Option<Seq<char>>) -> Seq<char> {
    if seq!['~', '/'].is_prefix_of(s) && home is Some {
        join_spec(home->0, s.skip(2))
    } else {
        s
    }
}

/// Expands a leading `~/` against `home` (the value of `$HOME`, if set).
pub fn expand_home(s: &str, home: Option<&str>) -> (r: String)
    ensures
        r@ == expand_home_spec(s@, match home {
            Some(h) => Some(h@),
            None => None,
        }),
{
    let v = chars_of(s);
    let tilde = v.len() >= 2 && v[0] == '~' && v[1] == '/';
    proof {
        if tilde {
            assert(seq!['~', '/'] =~= s@.subrange(0, 2));
        } else if seq!['~', '/'].is_prefix_of(s@) {
            assert(s@[0] == seq!['~', '/'][0] && s@[1] == seq!['~', '/'][1]);
        }
    }
    match home {
        Some(h) if tilde => {
            let rest = string_of_range(&v, 2, v.len());
            proof {
                assert(rest@ =~= s@.skip(2));
            }
            join_path(h, rest.as_str())
        },
        _ => copy_str(s),
    }
}

/// The home directory used for manifest entries: `$HOME` when it is set,
/// otherwise the current directory.
pub fn home_or_current(home: Option<&str>) -> (r: String)
    ensures
        r@ == match home {
            Some(h) => h@,
            None => "."@,
        },
{
    match home {
        Some(h) => h.to_owned(),
        None => ".".to_owned(),
    }
}

/// Where the daemon looks for its config file, in order: the XDG config
/// home, then `~/.config`, then `./config.toml`.
pub open spec fn config_candidates_spec(xdg: Option<Seq<char>>, home: Option<Seq<char>>) -> Seq<
    Seq<char>,
> {
    let from_xdg = match xdg {
        Some(x) => seq![join_spec(join_spec(x, "apexdaemon"@), "config.toml"@)],
        None => Seq::empty(),
    };
    let from_home = match home {
        Some(h) => seq![
            join_spec(join_spec(join_spec(h, ".config"@), "apexdaemon"@), "config.toml"@),
        ],
        None => Seq::empty(),
    };
    from_xdg + from_home + seq!["config.toml"@]
}

/// The config file candidates for the given `$XDG_CONFIG_HOME` and `$HOME`.
pub fn config_path_candidates(xdg: Option<&str>, home: Option<&str>) -> (r: Vec<String>)
    ensures
        views(r@) == config_candidates_spec(
            match xdg {
                Some(x) => Some(x@),
                None => None,
            },
            match home {
                Some(h) => Some(h@),
                None => None,
            },
        ),
{
    let mut r: Vec<String> = Vec::new();
    if let Some(x) = xdg {
        let d = join_path(x, "apexdaemon");
        r.push(join_path(d.as_str(), "config.toml"));
    }
    if let Some(h) = home {
        let c = join_path(h, ".config");
        let d = join_path(c.as_str(), "apexdaemon");
        r.push(join_path(d.as_str(), "config.toml"));
    }
    r.push("config.toml".to_owned());
    proof {
        let g = config_candidates_spec(
            match xdg {
                Some(x) => Some(x@),
                None => None,
            },
            match home {
                Some(h) => Some(h@),
                None => None,
            },
        );
        assert(views(r@) =~= g);
    }
    r
}

/// Position `i..j` of `p` is one whole `/`-separated segment.
pub open spec fn is_segment(p: Seq<char>, i: int, j: int) -> bool {
    &&& 0 <= i <= j <= p.len()
    &&& i == 0 || p[i - 1] == '/'
    &&& j == p.len() || p[j] == '/'
    &&& forall|k: int| i <= k < j ==> p[k] != '/'
}

/// Some segment of `p` is `..`, i.e. `p` has a parent-directory component.
pub open spec fn has_parent_component(p: Seq<char>) -> bool {
    exists|i: int| #[trigger] is_segment(p, i, i + 2) && p[i] == '.' && p[i + 1] == '.'
}

/// A manifest entry that stays inside the directory it is joined onto: not
/// absolute and without any `..` component.
pub open spec fn is_safe_relative_spec(p: Seq<char>) -> bool {
    !(p.len() > 0 && p[0] == '/') && !has_parent_component(p)
}

/// Whether `path` is relative and has no `..` component.
pub fn is_safe_relative_path(path: &str) -> (b: bool)
    ensures
        b == is_safe_relative_spec(path@),
{
    let p = chars_of(path);
    if p.len() > 0 && p[0] == '/' {
        return false;
    }
    let mut start: usize = 0;
    let mut i: usize = 0;
    while i < p.len()
        invariant
            start <= i <= p.len(),
            p@ == path@,
            start == 0 || p@[start - 1] == '/',
            forall|k: int| start <= k < i ==> p@[k] != '/',
            forall|s: int|
                #![trigger is_segment(p@, s, s + 2)]
                0 <= s < start && is_segment(p@, s, s + 2) ==> !(p@[s] == '.' && p@[s + 1] == '.'),
        decreases p.len() - i,
    {
        if p[i] == '/' {
            if i - start == 2 && p[start] == '.' && p[start + 1] == '.' {
                assert(is_segment(p@, start as int, start + 2));
                return false;
            }
            proof {
                assert forall|s: int|
                    #![trigger is_segment(p@, s, s + 2)]
                    0 <= s < i + 1 && is_segment(p@, s, s + 2) implies !(p@[s] == '.' && p@[s
                        + 1] == '.') by {
                    if s >= start && s < i + 1 {
                        if s > start {
                            assert(p@[s - 1] == '/');
                        }
                        if s + 2 != i {
                            if s + 2 < i {
                                assert(p@[s + 2] != '/');
                            } else {
                                assert(s + 1 == i || s == i);
                                if s == i {
                                }
                            }
                        }
                    }
                }
            }
            start = i + 1;
        }
        i = i + 1;
    }
    if p.len() - start == 2 && p[start] == '.' && p[start + 1] == '.' {
        assert(is_segment(p@, start as int, start + 2));
        return false;
    }
    proof {
        assert forall|s: int| #[trigger] is_segment(p@, s, s + 2) implies !(p@[s] == '.' && p@[s
            + 1] == '.') by {
            if s >= start {
                if s > start {
                    assert(p@[s - 1] == '/');
                }
            }
        }
    }
    true
}

/// A single path component that cannot leave its parent directory: not
/// empty, not `.` or `..`, and without `/` or `\`.
pub open spec fn is_safe_name_spec(n: Seq<char>) -> bool {
    &&& n.len() > 0
    &&& n != seq!['.']
    &&& n != seq!['.', '.']
    &&& !n.contains('/')
    &&& !n.contains('\\')
}

/// Whether `name` is a single, non-special path component.
pub fn is_safe_name(name: &str) -> (b: bool)
    ensures
        b == is_safe_name_spec(name@),
{
    let v = chars_of(name);
    if v.len() == 0 {
        return false;
    }
    if v.len() == 1 && v[0] == '.' {
        assert(v@ =~= seq!['.']);
        return false;
    }
    if v.len() == 2 && v[0] == '.' && v[1] == '.' {
        assert(v@ =~= seq!['.', '.']);
        return false;
    }
    let mut i: usize = 0;
    while i < v.len()
        invariant
            i <= v.len(),
            v@ == name@,
            forall|k: int| 0 <= k < i ==> v@[k] != '/' && v@[k] != '\\',
        decreases v.len() - i,
    {
        if v[i] == '/' || v[i] == '\\' {
            assert(v@.contains('/') || v@.contains('\\')) by {
                assert(0 <= i < v@.len() && v@[i as int] == v[i as int]);
            }
            return false;
        }
        i = i + 1;
    }
    assert(v@ != seq!['.']) by {
        if v@.len() == 1 {
            assert(v@[0] != '.');
        }
    }
    assert(v@ != seq!['.', '.']) by {
        if v@.len() == 2 {
            assert(!(v@[0] == '.' && v@[1] == '.'));
            if v@ =~= seq!['.', '.'] {
                assert(v@[0] == '.');
            }
        }
    }
    true
}

} // verus!

verus! {

/// A piece between separators that names no component: empty or `.`.
pub open spec fn is_skip_piece(p: Seq<char>) -> bool {
    p.len() == 0 || p == seq!['.']
}

pub open spec fn has_root(s: Seq<char>) -> bool {
    s.len() > 0 && s[0] == '/'
}

/// A relative path starting with a `.` component (`.` or `./...`).
pub open spec fn has_curdir(s: Seq<char>) -> bool {
    !has_root(s) && split_char(s, '/')[0] == seq!['.']
}

pub open spec fn body_start(s: Seq<char>) -> int {
    if has_root(s) || has_curdir(s) {
        1
    } else {
        0
    }
}

/// The path's components, each with the index of the `/`-separated piece
/// it comes from: the root (written `/`) or a leading `.`, then every piece
/// that is neither empty nor `.` (`Path::components`).
pub open spec fn component_entries(s: Seq<char>) -> Seq<(int, Seq<char>)> {
    let ps = split_char(s, '/');
    let start: Seq<(int, Seq<char>)> = if has_root(s) {
        seq![(0int, seq!['/'])]
    } else if has_curdir(s) {
        seq![(0int, seq!['.'])]
    } else {
        Seq::empty()
    };
    let from = body_start(s);
    start + Seq::new((ps.len() - from) as nat, |j: int| (j + from, ps[j + from])).filter(
        |e: (int, Seq<char>)| !is_skip_piece(e.1),
    )
}

pub open spec fn components(s: Seq<char>) -> Seq<Seq<char>> {
    component_entries(s).map_values(|e: (int, Seq<char>)| e.1)
}

pub open spec fn trim_pieces_start(ps: Seq<Seq<char>>) -> Seq<Seq<char>>
    decreases ps.len(),
{
    if ps.len() > 0 && is_skip_piece(ps[0]) {
        trim_pieces_start(ps.drop_first())
    } else {
        ps
    }
}

pub open spec fn trim_pieces_end(ps: Seq<Seq<char>>) -> Seq<Seq<char>>
    decreases ps.len(),
{
    if ps.len() > 0 && is_skip_piece(ps.last()) {
        trim_pieces_end(ps.drop_last())
    } else {
        ps
    }
}

/// The text of `path` after the components of `base`, when those are a
/// prefix of its components (`Path::strip_prefix`): the remaining pieces
/// with empty and `.` pieces trimmed from both ends. When `base` has no
/// components the whole path remains, trimmed only at its end.
pub open spec fn strip_prefix_spec(path: Seq<char>, base: Seq<char>) -> Option<Seq<char>> {
    let pc = components(path);
    let bc = components(base);
    let ps = split_char(path, '/');
    if !bc.is_prefix_of(pc) {
        None
    } else if bc.len() == 0 {
        Some(
            if has_root(path) {
                seq!['/'] + join_pieces(trim_pieces_end(ps.skip(1)), seq!['/'])
            } else if has_curdir(path) {
                seq!['.'] + join_pieces(
                    trim_pieces_end(seq![Seq::<char>::empty()] + ps.skip(1)),
                    seq!['/'],
                )
            } else {
                join_pieces(trim_pieces_end(ps), seq!['/'])
            },
        )
    } else {
        let m = component_entries(path)[bc.len() - 1].0 + 1;
        Some(join_pieces(trim_pieces_end(trim_pieces_start(ps.skip(m))), seq!['/']))
    }
}

/// A path as shown in reports: `~/` and the rest when it lies under the
/// home directory, otherwise the path itself.
pub open spec fn display_path_spec(path: Seq<char>, home: Seq<char>) -> Seq<char> {
    match strip_prefix_spec(path, home) {
        Some(rest) => "~/"@ + rest,
        None => path,
    }
}

#[verifier::spinoff_prover]
fn component_list(s: &str) -> (r: (Vec<String>, Vec<usize>, Vec<String>))
    ensures
        views(r.0@) == split_char(s@, '/'),
        r.1@.len() == r.2@.len(),
        r.1@.len() == component_entries(s@).len(),
        forall|i: int|
            0 <= i < r.1@.len() ==> component_entries(s@)[i] == (
            #[trigger] r.1@[i] as int,
            r.2@[i]@,
        ),
        forall|i: int| 0 <= i < r.1@.len() ==> r.1@[i] < r.0@.len(),
{
    let ps = split_on(s, '/');
    proof {
        crate::text::lemma_split_char_len(s@, '/');
    }
    let v = chars_of(s);
    let root = v.len() > 0 && v[0] == '/';
    let cur = !root && str_eq_dot(ps[0].as_str());
    proof {
        assert(views(ps@)[0] == ps@[0]@);
    }
    let mut idx: Vec<usize> = Vec::new();
    let mut txt: Vec<String> = Vec::new();
    if root {
        idx.push(0);
        txt.push("/".to_owned());
        proof {
            reveal_strlit("/");
        }
    } else if cur {
        idx.push(0);
        txt.push(".".to_owned());
        proof {
            reveal_strlit(".");
        }
    }
    let from: usize = if root || cur {
        1
    } else {
        0
    };
    let ghost start_len = idx@.len();
    let ghost all = Seq::new(
        (split_char(s@, '/').len() - from) as nat,
        |j: int| (j + from, split_char(s@, '/')[j + from]),
    );
    let ghost keep = |e: (int, Seq<char>)| !is_skip_piece(e.1);
    let ghost start: Seq<(int, Seq<char>)> = if root {
        seq![(0int, seq!['/'])]
    } else if cur {
        seq![(0int, seq!['.'])]
    } else {
        Seq::empty()
    };
    assert(from as int == body_start(s@));
    let mut j: usize = from;
    while j < ps.len()
        invariant
            from <= j <= ps.len(),
            views(ps@) == split_char(s@, '/'),
            all == Seq::new(
                (split_char(s@, '/').len() - from) as nat,
                |j: int| (j + from, split_char(s@, '/')[j + from]),
            ),
            keep == (|e: (int, Seq<char>)| !is_skip_piece(e.1)),
            idx@.len() == txt@.len(),
            idx@.len() == start.len() + all.take(j - from).filter(keep).len(),
            forall|i: int|
                0 <= i < idx@.len() ==> (start + all.take(j - from).filter(keep))[i] == (
                #[trigger] idx@[i] as int,
                txt@[i]@,
            ),
            forall|i: int| 0 <= i < idx@.len() ==> idx@[i] < ps@.len(),
            start.len() <= 1,
            from <= 1,
            from == 1 ==> ps@.len() >= 1,
        decreases ps.len() - j,
    {
        let p = ps[j].as_str();
        let skip = p.is_empty() || str_eq_dot(p);
        proof {
            assert(views(ps@)[j as int] == p@);
            assert(all[j - from] == (j as int, p@));
            assert(all.take(j - from + 1) =~= all.take(j - from).push((j as int, p@)));
            all.take(j - from).lemma_filter_push((j as int, p@), keep);
        }
        let ghost before = start + all.take(j - from).filter(keep);
        if !skip {
            idx.push(j);
            txt.push(ps[j].clone());
            proof {
                assert(start + all.take(j - from + 1).filter(keep) =~= before.push((j as int, p@)));
            }
        } else {
            proof {
                assert(is_skip_piece(p@));
                assert(start + all.take(j - from + 1).filter(keep) =~= before);
            }
        }
        j = j + 1;
    }
    proof {
        assert(all.take(ps@.len() - from) =~= all);
        assert(has_root(s@) == root);
        assert(has_curdir(s@) == cur);
        assert(component_entries(s@) =~= start + all.filter(keep));
    }
    (ps, idx, txt)
}

fn str_eq_dot(p: &str) -> (b: bool)
    ensures
        b == (p@ == seq!['.']),
{
    let v = chars_of(p);
    let b = v.len() == 1 && v[0] == '.';
    if b {
        assert(v@ =~= seq!['.']);
    }
    b
}

fn is_skip(p: &str) -> (b: bool)
    ensures
        b == is_skip_piece(p@),
{
    p.is_empty() || str_eq_dot(p)
}

proof fn lemma_trim_start_at(ps: Seq<Seq<char>>, i: int)
    requires
        0 <= i <= ps.len(),
        forall|k: int| 0 <= k < i ==> is_skip_piece(#[trigger] ps[k]),
        i == ps.len() || !is_skip_piece(ps[i]),
    ensures
        trim_pieces_start(ps) == ps.skip(i),
    decreases i,
{
    if i == 0 {
        assert(ps.skip(0) =~= ps);
    } else {
        assert(is_skip_piece(ps[0]));
        let t = ps.drop_first();
        assert forall|k: int| 0 <= k < i - 1 implies is_skip_piece(#[trigger] t[k]) by {
            assert(t[k] == ps[k + 1]);
        }
        lemma_trim_start_at(t, i - 1);
        assert(t.skip(i - 1) =~= ps.skip(i));
    }
}

proof fn lemma_trim_end_at(ps: Seq<Seq<char>>, j: int)
    requires
        0 <= j <= ps.len(),
        forall|k: int| j <= k < ps.len() ==> is_skip_piece(#[trigger] ps[k]),
        j == 0 || !is_skip_piece(ps[j - 1]),
    ensures
        trim_pieces_end(ps) == ps.take(j),
    decreases ps.len() - j,
{
    if j == ps.len() {
        assert(ps.take(j) =~= ps);
    } else {
        assert(is_skip_piece(ps.last()));
        let t = ps.drop_last();
        assert forall|k: int| j <= k < t.len() implies is_skip_piece(#[trigger] t[k]) by {
            assert(t[k] == ps[k]);
        }
        lemma_trim_end_at(t, j);
        assert(t.take(j) =~= ps.take(j));
    }
}

/// `pieces[lo..]` with skip pieces trimmed from the front (when
/// `trim_front`) and from the back, joined with `/`.
fn join_trimmed(pieces: &Vec<String>, lo: usize, trim_front: bool) -> (r: String)
    requires
        lo <= pieces.len(),
    ensures
        r@ == join_pieces(
            if trim_front {
                trim_pieces_end(trim_pieces_start(views(pieces@).skip(lo as int)))
            } else {
                trim_pieces_end(views(pieces@).skip(lo as int))
            },
            seq!['/'],
        ),
{
    let ghost t = views(pieces@).skip(lo as int);
    let mut a = lo;
    if trim_front {
        while a < pieces.len() && is_skip(pieces[a].as_str())
            invariant
                lo <= a <= pieces.len(),
                t == views(pieces@).skip(lo as int),
                forall|k: int| lo <= k < a ==> is_skip_piece(#[trigger] pieces@[k]@),
            decreases pieces.len() - a,
        {
            a = a + 1;
        }
        proof {
            assert forall|k: int| 0 <= k < a - lo implies is_skip_piece(#[trigger] t[k]) by {
                assert(t[k] == pieces@[k + lo]@);
            }
            if a < pieces.len() {
                assert(t[a - lo] == pieces@[a as int]@);
            }
            lemma_trim_start_at(t, a - lo);
            assert(t.skip(a - lo) =~= views(pieces@).skip(a as int));
        }
    }
    let ghost u = views(pieces@).skip(a as int);
    let mut b = pieces.len();
    while b > a && is_skip(pieces[b - 1].as_str())
        invariant
            a <= b <= pieces.len(),
            forall|k: int| b <= k < pieces.len() ==> is_skip_piece(#[trigger] pieces@[k]@),
        decreases b,
    {
        b = b - 1;
    }
    proof {
        assert forall|k: int| b - a <= k < u.len() implies is_skip_piece(#[trigger] u[k]) by {
            assert(u[k] == pieces@[k + a]@);
        }
        if b > a {
            assert(u[b - a - 1] == pieces@[b - 1]@);
        }
        lemma_trim_end_at(u, b - a);
    }
    let mut parts: Vec<String> = Vec::new();
    let mut k = a;
    while k < b
        invariant
            a <= k <= b <= pieces.len(),
            views(parts@) == views(pieces@).subrange(a as int, k as int),
        decreases b - k,
    {
        let ghost before = views(parts@);
        parts.push(pieces[k].clone());
        assert(views(parts@) =~= before.push(pieces@[k as int]@));
        assert(views(parts@) =~= views(pieces@).subrange(a as int, k + 1));
        k = k + 1;
    }
    assert(u.take(b - a) =~= views(pieces@).subrange(a as int, b as int));
    let r = join(&parts, "/");
    proof {
        reveal_strlit("/");
        assert("/"@ =~= seq!['/']);
    }
    r
}

/// The components of `s` (`Path::components`), as text: the root written
/// `/`, a leading current directory written `.`, then the named parts.
pub fn component_texts(s: &str) -> (r: Vec<String>)
    ensures
        views(r@) == components(s@),
{
    let (_ps, idx, txt) = component_list(s);
    proof {
        assert(views(txt@) =~= components(s@)) by {
            assert forall|i: int| 0 <= i < txt@.len() implies views(txt@)[i] == components(s@)[i] by {
                assert(component_entries(s@)[i] == (idx@[i] as int, txt@[i]@));
            }
        }
    }
    txt
}

/// A `.` component only ever stands first, for a leading `.`.
proof fn lemma_component_dot(s: Seq<char>, i: int)
    requires
        0 <= i < components(s).len(),
        components(s)[i] == seq!['.'],
    ensures
        i == 0,
        has_curdir(s),
{
    let ps = split_char(s, '/');
    let start: Seq<(int, Seq<char>)> = if has_root(s) {
        seq![(0int, seq!['/'])]
    } else if has_curdir(s) {
        seq![(0int, seq!['.'])]
    } else {
        Seq::empty()
    };
    let from = body_start(s);
    let keep = |e: (int, Seq<char>)| !is_skip_piece(e.1);
    let all = Seq::new((ps.len() - from) as nat, |j: int| (j + from, ps[j + from]));
    let f = all.filter(keep);
    assert(component_entries(s) == start + f);
    assert(components(s)[i] == component_entries(s)[i].1);
    if i >= start.len() {
        all.lemma_filter_pred(keep, i - start.len());
        assert(component_entries(s)[i] == f[i - start.len()]);
    } else if has_root(s) {
        assert(seq!['/'][0] != seq!['.'][0]);
    }
}

/// `Path::file_name`: the last component when it is a name (not the root,
/// a leading `.`, or `..`).
pub open spec fn file_name_spec(p: Seq<char>) -> Option<Seq<char>> {
    let cs = components(p);
    if cs.len() == 0 {
        None
    } else if cs.len() == 1 && (has_root(p) || has_curdir(p)) {
        None
    } else if cs.last() == seq!['.', '.'] {
        None
    } else {
        Some(cs.last())
    }
}

/// The position of the last `.` in `name`.
pub open spec fn last_dot(name: Seq<char>) -> Option<int> {
    if exists|i: int| 0 <= i < name.len() && name[i] == '.' {
        Some(
            choose|i: int|
                0 <= i < name.len() && name[i] == '.' && forall|j: int|
                    i < j < name.len() ==> name[j] != '.',
        )
    } else {
        None
    }
}

/// `Path::extension` of a file name: what follows its last `.`, unless
/// there is none or it is the name's first character.
pub open spec fn extension_spec(name: Seq<char>) -> Option<Seq<char>> {
    match last_dot(name) {
        Some(i) if i > 0 => Some(name.skip(i + 1)),
        _ => None,
    }
}

/// A path's file name and extension as text, each empty when absent
/// (`file_name()` and `extension()`, defaulted).
#[verifier::spinoff_prover]
pub fn file_name_and_extension(path: &str) -> (r: (String, String))
    ensures
        r.0@ == match file_name_spec(path@) {
            Some(n) => n,
            None => Seq::<char>::empty(),
        },
        r.1@ == match file_name_spec(path@) {
            Some(n) => match extension_spec(n) {
                Some(e) => e,
                None => Seq::<char>::empty(),
            },
            None => Seq::<char>::empty(),
        },
{
    let cs = component_texts(path);
    let v = chars_of(path);
    let root = v.len() > 0 && v[0] == '/';
    proof {
        reveal_strlit("..");
        assert(".."@ =~= seq!['.', '.']);
    }
    if cs.len() == 0 {
        return (String::new(), String::new());
    }
    let n = cs.len();
    let last = cs[n - 1].as_str();
    proof {
        assert(views(cs@)[n - 1] == last@);
        assert(root == has_root(path@));
    }
    if n == 1 && (root || str_eq(last, ".")) {
        proof {
            reveal_strlit(".");
            assert("."@ =~= seq!['.']);
            if !root {
                lemma_component_dot(path@, 0);
            }
        }
        return (String::new(), String::new());
    }
    proof {
        if n == 1 && has_curdir(path@) {
            assert(components(path@)[0] == seq!['.']);
            reveal_strlit(".");
            assert("."@ =~= seq!['.']);
        }
    }
    if str_eq(last, "..") {
        return (String::new(), String::new());
    }
    let name = last.to_owned();
    let nv = chars_of(last);
    let mut i = nv.len();
    while i > 0 && nv[i - 1] != '.'
        invariant
            i <= nv.len(),
            nv@ == last@,
            forall|j: int| i <= j < nv.len() ==> nv@[j] != '.',
        decreases i,
    {
        i = i - 1;
    }
    proof {
        if i > 0 {
            let w = choose|k: int|
                0 <= k < last@.len() && last@[k] == '.' && forall|j: int|
                    k < j < last@.len() ==> last@[j] != '.';
            assert(last@[i - 1] == '.');
            if w < i - 1 {
                assert(last@[i - 1] != '.');
            } else if w > i - 1 {
            }
            assert(last_dot(last@) == Some(i - 1));
        } else {
            assert(!(exists|k: int| 0 <= k < last@.len() && last@[k] == '.'));
        }
    }
    let ext = if i > 1 {
        let e = string_of_range(&nv, i, nv.len());
        assert(e@ =~= last@.skip(i as int));
        e
    } else {
        String::new()
    };
    (name, ext)
}

/// A path for reports: `~/...` under the home directory.
#[verifier::spinoff_prover]
pub fn display_path(path: &str, home: &str) -> (r: String)
    ensures
        r@ == display_path_spec(path@, home@),
{
    let (ps, pidx, ptxt) = component_list(path);
    let (_hs, _hidx, htxt) = component_list(home);
    let ghost pc = components(path@);
    let ghost bc = components(home@);
    proof {
        assert(pc.len() == ptxt@.len());
        assert forall|i: int| 0 <= i < ptxt@.len() implies pc[i] == (#[trigger] ptxt@[i])@ by {
            assert(component_entries(path@)[i] == (pidx@[i] as int, ptxt@[i]@));
        }
        assert forall|i: int| 0 <= i < htxt@.len() implies bc[i] == (#[trigger] htxt@[i])@ by {
            assert(component_entries(home@)[i] == (_hidx@[i] as int, htxt@[i]@));
        }
    }
    // Is the home's component list a prefix of the path's?
    let mut prefix = htxt.len() <= ptxt.len();
    let mut i: usize = 0;
    while prefix && i < htxt.len()
        invariant
            i <= htxt.len(),
            prefix ==> htxt@.len() <= ptxt@.len(),
            prefix ==> forall|k: int| 0 <= k < i ==> pc[k] == bc[k],
            !prefix ==> !bc.is_prefix_of(pc),
            pc.len() == ptxt@.len(),
            bc.len() == htxt@.len(),
            forall|k: int| 0 <= k < ptxt@.len() ==> pc[k] == (#[trigger] ptxt@[k])@,
            forall|k: int| 0 <= k < htxt@.len() ==> bc[k] == (#[trigger] htxt@[k])@,
        decreases htxt.len() - i + (if prefix {
            1int
        } else {
            0int
        }),
    {
        if !str_eq(htxt[i].as_str(), ptxt[i].as_str()) {
            prefix = false;
        } else {
            i = i + 1;
        }
    }
    if !prefix {
        return path.to_owned();
    }
    proof {
        assert(bc.is_prefix_of(pc));
        crate::text::lemma_split_char_len(path@, '/');
    }
    let rest = if htxt.len() == 0 {
        let v = chars_of(path);
        if v.len() > 0 && v[0] == '/' {
            let mut r = "/".to_owned();
            push_str(&mut r, join_trimmed(&ps, 1, false).as_str());
            proof {
                reveal_strlit("/");
                assert(has_root(path@));
                assert(strip_prefix_spec(path@, home@) == Some(r@));
            }
            r
        } else if ps.len() > 0 && str_eq_dot(ps[0].as_str()) {
            let mut rebuilt: Vec<String> = Vec::new();
            rebuilt.push(String::new());
            let mut k: usize = 1;
            while k < ps.len()
                invariant
                    1 <= k <= ps.len(),
                    views(rebuilt@) == seq![Seq::<char>::empty()] + views(ps@).subrange(1, k as int),
                decreases ps.len() - k,
            {
                let ghost before = views(rebuilt@);
                rebuilt.push(ps[k].clone());
                assert(views(rebuilt@) =~= before.push(ps@[k as int]@));
                assert(views(rebuilt@) =~= seq![Seq::<char>::empty()] + views(ps@).subrange(1, k + 1));
                k = k + 1;
            }
            let mut r = ".".to_owned();
            push_str(&mut r, join_trimmed(&rebuilt, 0, false).as_str());
            proof {
                reveal_strlit(".");
                assert(views(rebuilt@).skip(0) =~= seq![Seq::<char>::empty()] + views(ps@).skip(1));
                assert(views(ps@)[0] == ps@[0]@);
                assert(!has_root(path@));
                assert(has_curdir(path@));
                assert(strip_prefix_spec(path@, home@) == Some(r@));
            }
            r
        } else {
            let r = join_trimmed(&ps, 0, false);
            proof {
                assert(views(ps@).skip(0) =~= views(ps@));
                assert(views(ps@)[0] == ps@[0]@);
                assert(!has_root(path@));
                assert(!has_curdir(path@));
                assert(strip_prefix_spec(path@, home@) == Some(r@));
            }
            r
        }
    } else {
        let m = pidx[htxt.len() - 1] + 1;
        let r = join_trimmed(&ps, m, true);
        proof {
            assert(component_entries(path@)[bc.len() - 1] == (
                pidx@[htxt@.len() - 1] as int,
                ptxt@[htxt@.len() - 1]@,
            ));
            assert(strip_prefix_spec(path@, home@) == Some(r@));
        }
        r
    };
    concat("~/", rest.as_str())
}

} // verus!

verus! {

proof fn lemma_segment_in_longer(s: Seq<char>, i: int, j: int)
    requires
        s.len() > 0,
        is_segment(s.drop_last(), i, j),
        j < s.len() - 1 || s.last() == '/',
    ensures
        is_segment(s, i, j),
        s.subrange(i, j) == s.drop_last().subrange(i, j),
{
    let t = s.drop_last();
    assert forall|m: int| i <= m < j implies s[m] != '/' by {
        assert(t[m] == s[m]);
    }
    if i > 0 {
        assert(t[i - 1] == s[i - 1]);
    }
    if j < t.len() {
        assert(t[j] == s[j]);
    }
    assert(s.subrange(i, j) =~= t.subrange(i, j));
}

proof fn lemma_segment_grows(s: Seq<char>, i: int)
    requires
        s.len() > 0,
        is_segment(s.drop_last(), i, s.len() - 1),
        s.last() != '/',
    ensures
        is_segment(s, i, s.len() as int),
        s.subrange(i, s.len() as int) == s.drop_last().subrange(i, s.len() - 1).push(s.last()),
{
    let t = s.drop_last();
    assert forall|m: int| i <= m < s.len() implies s[m] != '/' by {
        if m < t.len() {
            assert(t[m] == s[m]);
        }
    }
    if i > 0 {
        assert(t[i - 1] == s[i - 1]);
    }
    assert(s.subrange(i, s.len() as int) =~= t.subrange(i, s.len() - 1).push(s.last()));
}

/// Each `/`-separated piece of `s` is a whole segment of it, at the offsets
/// returned; every piece but the last ends before the end of `s`.
proof fn lemma_split_segments(s: Seq<char>) -> (offs: Seq<int>)
    ensures
        offs.len() == split_char(s, '/').len(),
        forall|k: int|
            0 <= k < offs.len() ==> is_segment(
                s,
                #[trigger] offs[k],
                offs[k] + split_char(s, '/')[k].len(),
            ) && s.subrange(offs[k], offs[k] + split_char(s, '/')[k].len()) == split_char(
                s,
                '/',
            )[k],
        forall|k: int|
            0 <= k < offs.len() - 1 ==> #[trigger] offs[k] + split_char(s, '/')[k].len() < s.len(),
        offs[offs.len() - 1] + split_char(s, '/')[offs.len() - 1].len() == s.len(),
    decreases s.len(),
{
    if s.len() == 0 {
        let offs = seq![0int];
        assert(split_char(s, '/') == seq![Seq::<char>::empty()]);
        assert(s.subrange(0, 0) =~= Seq::<char>::empty());
        offs
    } else {
        let t = s.drop_last();
        let c = s.last();
        let prev = lemma_split_segments(t);
        let rest = split_char(t, '/');
        crate::text::lemma_split_char_len(t, '/');
        let n = rest.len();
        if c == '/' {
            let offs = prev.push(s.len() as int);
            assert forall|k: int|
                0 <= k < offs.len() implies is_segment(
                s,
                #[trigger] offs[k],
                offs[k] + split_char(s, '/')[k].len(),
            ) && s.subrange(offs[k], offs[k] + split_char(s, '/')[k].len()) == split_char(
                s,
                '/',
            )[k] by {
                if k < n {
                    assert(split_char(s, '/')[k] == rest[k]);
                    let e = offs[k] + rest[k].len();
                    assert(is_segment(t, prev[k], e));
                    lemma_segment_in_longer(s, prev[k], e);
                } else {
                    assert(split_char(s, '/')[k] == Seq::<char>::empty());
                    assert(s.subrange(s.len() as int, s.len() as int) =~= Seq::<char>::empty());
                }
            }
            assert forall|k: int| 0 <= k < offs.len() - 1 implies #[trigger] offs[k] + split_char(
                s,
                '/',
            )[k].len() < s.len() by {
                assert(split_char(s, '/')[k] == rest[k]);
                assert(is_segment(t, prev[k], prev[k] + rest[k].len()));
            }
            offs
        } else {
            let offs = prev;
            let last = rest[n - 1];
            assert(split_char(s, '/') == rest.update(n - 1, last.push(c)));
            assert forall|k: int|
                0 <= k < offs.len() implies is_segment(
                s,
                #[trigger] offs[k],
                offs[k] + split_char(s, '/')[k].len(),
            ) && s.subrange(offs[k], offs[k] + split_char(s, '/')[k].len()) == split_char(
                s,
                '/',
            )[k] by {
                if k < n - 1 {
                    assert(split_char(s, '/')[k] == rest[k]);
                    let e = offs[k] + rest[k].len();
                    assert(is_segment(t, prev[k], e));
                    assert(e < t.len());
                    lemma_segment_in_longer(s, prev[k], e);
                } else {
                    let e = prev[k] + last.len();
                    assert(is_segment(t, prev[k], e));
                    assert(t.subrange(prev[k], e) == last);
                    assert(split_char(s, '/')[k] == last.push(c));
                    lemma_segment_grows(s, prev[k]);
                }
            }
            assert forall|k: int| 0 <= k < offs.len() - 1 implies #[trigger] offs[k] + split_char(
                s,
                '/',
            )[k].len() < s.len() by {
                assert(split_char(s, '/')[k] == rest[k]);
            }
            offs
        }
    }
}


/// A path with no `..` segment has no `..` piece.
proof fn lemma_no_dotdot_piece(p: Seq<char>)
    requires
        !has_parent_component(p),
    ensures
        forall|k: int|
            0 <= k < split_char(p, '/').len() ==> #[trigger] split_char(p, '/')[k] != seq![
                '.',
                '.',
            ],
{
    let offs = lemma_split_segments(p);
    assert forall|k: int| 0 <= k < split_char(p, '/').len() implies #[trigger] split_char(
        p,
        '/',
    )[k] != seq!['.', '.'] by {
        if split_char(p, '/')[k] == seq!['.', '.'] {
            let o = offs[k];
            assert(is_segment(p, o, o + 2));
            assert(p.subrange(o, o + 2) == seq!['.', '.']);
            assert(p[o] == p.subrange(o, o + 2)[0]);
            assert(p[o + 1] == p.subrange(o, o + 2)[1]);
            assert(has_parent_component(p));
        }
    }
}

/// Splitting at a `/` between two texts splits each of them.
proof fn lemma_split_concat(a: Seq<char>, b: Seq<char>)
    ensures
        split_char(a + seq!['/'] + b, '/') == split_char(a, '/') + split_char(b, '/'),
    decreases b.len(),
{
    let s = a + seq!['/'] + b;
    crate::text::lemma_split_char_len(a, '/');
    if b.len() == 0 {
        assert(s.drop_last() =~= a);
        assert(split_char(b, '/') == seq![Seq::<char>::empty()]);
        assert(split_char(s, '/') =~= split_char(a, '/') + split_char(b, '/'));
    } else {
        lemma_split_concat(a, b.drop_last());
        assert(s.drop_last() =~= a + seq!['/'] + b.drop_last());
        crate::text::lemma_split_char_len(b.drop_last(), '/');
        let x = split_char(a, '/');
        let y = split_char(b.drop_last(), '/');
        if b.last() == '/' {
            assert(split_char(s, '/') =~= x + y.push(Seq::empty()));
        } else {
            assert((x + y).update(x.len() + y.len() - 1, y.last().push(b.last())) =~= x
                + y.update(y.len() - 1, y.last().push(b.last())));
        }
    }
}

pub open spec fn start_texts(s: Seq<char>) -> Seq<Seq<char>> {
    if has_root(s) {
        seq![seq!['/']]
    } else if has_curdir(s) {
        seq![seq!['.']]
    } else {
        Seq::empty()
    }
}

pub open spec fn named_pieces(ps: Seq<Seq<char>>) -> Seq<Seq<char>> {
    ps.filter(|p: Seq<char>| !is_skip_piece(p))
}

proof fn lemma_filter_second(x: Seq<(int, Seq<char>)>)
    ensures
        x.filter(|e: (int, Seq<char>)| !is_skip_piece(e.1)).map_values(|e: (int, Seq<char>)| e.1)
            == named_pieces(x.map_values(|e: (int, Seq<char>)| e.1)),
    decreases x.len(),
{
    let keep = |e: (int, Seq<char>)| !is_skip_piece(e.1);
    let second = |e: (int, Seq<char>)| e.1;
    let named = |p: Seq<char>| !is_skip_piece(p);
    if x.len() == 0 {
        assert(x.filter(keep) =~= Seq::<(int, Seq<char>)>::empty()) by {
            reveal(Seq::filter);
        }
        assert(x.map_values(second).filter(named) =~= Seq::<Seq<char>>::empty()) by {
            reveal(Seq::filter);
        }
    } else {
        let y = x.drop_last();
        lemma_filter_second(y);
        assert(x =~= y.push(x.last()));
        y.lemma_filter_push(x.last(), keep);
        assert(x.map_values(second) =~= y.map_values(second).push(x.last().1));
        y.map_values(second).lemma_filter_push(x.last().1, named);
        if keep(x.last()) {
            assert(y.push(x.last()).filter(keep).map_values(second) =~= y.filter(keep).map_values(
                second,
            ).push(x.last().1));
        }
    }
}

/// The components of `s`: the root or a leading `.`, then its named pieces.
proof fn lemma_components_pieces(s: Seq<char>)
    ensures
        components(s) == start_texts(s) + named_pieces(split_char(s, '/').skip(body_start(s))),
{
    let ps = split_char(s, '/');
    crate::text::lemma_split_char_len(s, '/');
    let from = body_start(s);
    let start: Seq<(int, Seq<char>)> = if has_root(s) {
        seq![(0int, seq!['/'])]
    } else if has_curdir(s) {
        seq![(0int, seq!['.'])]
    } else {
        Seq::empty()
    };
    let keep = |e: (int, Seq<char>)| !is_skip_piece(e.1);
    let second = |e: (int, Seq<char>)| e.1;
    let all = Seq::new((ps.len() - from) as nat, |j: int| (j + from, ps[j + from]));
    assert(component_entries(s) == start + all.filter(keep));
    lemma_filter_second(all);
    assert(all.map_values(second) =~= ps.skip(from));
    assert((start + all.filter(keep)).map_values(second) =~= start.map_values(second) + all.filter(
        keep,
    ).map_values(second));
    assert(start.map_values(second) =~= start_texts(s));
}

proof fn lemma_named_no_dotdot(ps: Seq<Seq<char>>)
    requires
        forall|k: int| 0 <= k < ps.len() ==> #[trigger] ps[k] != seq!['.', '.'],
    ensures
        forall|i: int|
            0 <= i < named_pieces(ps).len() ==> #[trigger] named_pieces(ps)[i] != seq!['.', '.'],
{
    let named = |p: Seq<char>| !is_skip_piece(p);
    assert forall|i: int| 0 <= i < named_pieces(ps).len() implies #[trigger] named_pieces(ps)[i]
        != seq!['.', '.'] by {
        let x = named_pieces(ps)[i];
        assert(ps.filter(named).contains(x));
        ps.lemma_filter_contains_rev(named, x);
    }
}

proof fn lemma_empty_has_no_components()
    ensures
        components(Seq::<char>::empty()).len() == 0,
{
    let e = Seq::<char>::empty();
    lemma_components_pieces(e);
    assert(split_char(e, '/') == seq![Seq::<char>::empty()]);
    assert(split_char(e, '/').skip(0) =~= seq![Seq::<char>::empty()]);
    let named = |p: Seq<char>| !is_skip_piece(p);
    Seq::<Seq<char>>::empty().lemma_filter_push(Seq::<char>::empty(), named);
    assert(seq![Seq::<char>::empty()] =~= Seq::<Seq<char>>::empty().push(Seq::<char>::empty()));
    assert(Seq::<Seq<char>>::empty().filter(named) =~= Seq::<Seq<char>>::empty()) by {
        reveal(Seq::filter);
    }
}

/// Joining a relative path that has no `..` onto a directory stays inside
/// that directory: the directory's own components come first, and none of
/// the components after them is `..`. This is what keeps every manifest
/// entry, snapshot file and restored file under the home directory.
#[verifier::spinoff_prover]
pub proof fn law_safe_join_stays_inside(base: Seq<char>, p: Seq<char>)
    requires
        is_safe_relative_spec(p),
    ensures
        components(base).is_prefix_of(components(join_spec(base, p))),
        forall|i: int|
            components(base).len() <= i < components(join_spec(base, p)).len() ==> #[trigger] components(
                join_spec(base, p),
            )[i] != seq!['.', '.'],
{
    let named = |x: Seq<char>| !is_skip_piece(x);
    let j = join_spec(base, p);
    lemma_no_dotdot_piece(p);
    lemma_components_pieces(j);
    if base.len() == 0 {
        lemma_empty_has_no_components();
        assert(j == p);
        let ps = split_char(p, '/');
        crate::text::lemma_split_char_len(p, '/');
        let from = body_start(p);
        assert forall|k: int| 0 <= k < ps.skip(from).len() implies #[trigger] ps.skip(from)[k]
            != seq!['.', '.'] by {
            assert(ps.skip(from)[k] == ps[k + from]);
        }
        lemma_named_no_dotdot(ps.skip(from));
        assert forall|i: int| 0 <= i < components(j).len() implies #[trigger] components(j)[i]
            != seq!['.', '.'] by {
            let st = start_texts(p);
            if i < st.len() {
                assert(st[i] == seq!['.'] || st[i] == seq!['/']);
                assert(seq!['.'].len() != seq!['.', '.'].len());
            } else {
                assert(components(j)[i] == named_pieces(ps.skip(from))[i - st.len()]);
            }
        }
    } else {
        let (stem, extra) = if base.last() == '/' {
            (base.drop_last(), true)
        } else {
            (base, false)
        };
        assert(j == stem + seq!['/'] + p) by {
            if extra {
                assert(base =~= stem + seq!['/']);
            }
        }
        lemma_split_concat(stem, p);
        crate::text::lemma_split_char_len(stem, '/');
        crate::text::lemma_split_char_len(p, '/');
        let sp = split_char(stem, '/');
        let pp = split_char(p, '/');
        assert(split_char(j, '/') == sp + pp);
        // `base` and `j` begin alike.
        lemma_components_pieces(base);
        assert(j[0] == base[0]);
        if extra {
            lemma_split_concat(stem, Seq::empty());
            assert(base =~= stem + seq!['/'] + Seq::<char>::empty());
            assert(split_char(Seq::<char>::empty(), '/') == seq![Seq::<char>::empty()]);
        }
        let bp = split_char(base, '/');
        assert(bp == if extra {
            sp + seq![Seq::<char>::empty()]
        } else {
            sp
        });
        assert(split_char(j, '/')[0] == bp[0]);
        assert(has_root(j) == has_root(base));
        assert(has_curdir(j) == has_curdir(base));
        let from = body_start(base);
        assert(body_start(j) == from);
        assert(start_texts(j) == start_texts(base));
        assert((sp + pp).skip(from) =~= sp.skip(from) + pp);
        Seq::filter_distributes_over_add(sp.skip(from), pp, named);
        let tail = named_pieces(pp);
        if extra {
            assert(bp.skip(from) =~= sp.skip(from) + seq![Seq::<char>::empty()]);
            Seq::filter_distributes_over_add(sp.skip(from), seq![Seq::<char>::empty()], named);
            Seq::<Seq<char>>::empty().lemma_filter_push(Seq::<char>::empty(), named);
            assert(seq![Seq::<char>::empty()] =~= Seq::<Seq<char>>::empty().push(
                Seq::<char>::empty(),
            ));
            assert(Seq::<Seq<char>>::empty().filter(named) =~= Seq::<Seq<char>>::empty()) by {
                reveal(Seq::filter);
            }
            assert(named_pieces(bp.skip(from)) =~= named_pieces(sp.skip(from)));
        }
        assert(components(j) =~= components(base) + tail);
        lemma_named_no_dotdot(pp);
        assert forall|i: int|
            components(base).len() <= i < components(j).len() implies #[trigger] components(j)[i]
            != seq!['.', '.'] by {
            assert(components(j)[i] == tail[i - components(base).len()]);
        }
    }
}

} // verus!
