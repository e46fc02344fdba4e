//! The order of paths (`Ord for Path`): component by component, where the
//! root comes before a leading `.`, that before `..`, and those before any
//! named component; named components compare as text. Two paths are the
//! same path when their components are the same.

use vstd::prelude::*;
use crate::order::{lemma_lt_irreflexive, lemma_lt_total, lemma_lt_transitive, lt, str_lt};
use crate::paths::{component_texts, components};
use crate::text::{str_eq, views};

verus! {

/// The kind of a component, in the order `Component`'s variants are
/// declared: the root, a leading `.`, `..`, then named components.
pub open spec fn comp_rank(c: Seq<char>, first: bool) -> int {
    if first && c == seq!['/'] {
        0
    } else if first && c == seq!['.'] {
        1
    } else if c == seq!['.', '.'] {
        2
    } else {
        3
    }
}

pub open spec fn comp_lt(a: Seq<char>, b: Seq<char>, first: bool) -> bool {
    let ra = comp_rank(a, first);
    let rb = comp_rank(b, first);
    ra < rb || (ra == 3 && rb == 3 && str_lt(a, b))
}

/// Lexicographic comparison of two component lists from position `k` on.
pub open spec fn comps_lt_from(a: Seq<Seq<char>>, b: Seq<Seq<char>>, k: nat) -> bool
    decreases a.len() - k,
{
    if k >= a.len() {
        k < b.len()
    } else if k >= b.len() {
        false
    } else if a[k as int] == b[k as int] {
        comps_lt_from(a, b, k + 1)
    } else {
        comp_lt(a[k as int], b[k as int], k == 0)
    }
}

/// `a` orders before `b` as component lists.
pub open spec fn path_lt(a: Seq<Seq<char>>, b: Seq<Seq<char>>) -> bool {
    comps_lt_from(a, b, 0)
}

proof fn lemma_comp_lt_irreflexive(a: Seq<char>, first: bool)
    ensures
        !comp_lt(a, a, first),
{
    lemma_lt_irreflexive(a);
}

proof fn lemma_comp_lt_total(a: Seq<char>, b: Seq<char>, first: bool)
    ensures
        a != b ==> comp_lt(a, b, first) || comp_lt(b, a, first),
{
    lemma_lt_total(a, b);
}

proof fn lemma_comp_lt_transitive(a: Seq<char>, b: Seq<char>, c: Seq<char>, first: bool)
    requires
        comp_lt(a, b, first),
        comp_lt(b, c, first),
    ensures
        comp_lt(a, c, first),
{
    if comp_rank(a, first) == 3 && comp_rank(b, first) == 3 && comp_rank(c, first) == 3 {
        lemma_lt_transitive(a, b, c);
    }
}

proof fn lemma_comps_irreflexive(a: Seq<Seq<char>>, k: nat)
    ensures
        !comps_lt_from(a, a, k),
    decreases a.len() - k,
{
    if k < a.len() {
        lemma_comps_irreflexive(a, k + 1);
    }
}

proof fn lemma_comps_total(a: Seq<Seq<char>>, b: Seq<Seq<char>>, k: nat)
    requires
        k <= a.len(),
        k <= b.len(),
        a.take(k as int) == b.take(k as int),
        a != b,
    ensures
        comps_lt_from(a, b, k) || comps_lt_from(b, a, k),
    decreases a.len() - k,
{
    if k == a.len() && k == b.len() {
        assert(a =~= a.take(k as int));
        assert(b =~= b.take(k as int));
    } else if k < a.len() && k < b.len() {
        if a[k as int] == b[k as int] {
            assert(a.take(k + 1int) =~= a.take(k as int).push(a[k as int]));
            assert(b.take(k + 1int) =~= b.take(k as int).push(b[k as int]));
            lemma_comps_total(a, b, k + 1);
        } else {
            lemma_comp_lt_total(a[k as int], b[k as int], k == 0);
        }
    }
}

proof fn lemma_comps_transitive(a: Seq<Seq<char>>, b: Seq<Seq<char>>, c: Seq<Seq<char>>, k: nat)
    requires
        comps_lt_from(a, b, k),
        comps_lt_from(b, c, k),
    ensures
        comps_lt_from(a, c, k),
    decreases a.len() - k,
{
    if k < a.len() {
        let f = k == 0;
        if a[k as int] == b[k as int] && b[k as int] == c[k as int] {
            lemma_comps_transitive(a, b, c, k + 1);
        } else if a[k as int] == b[k as int] {
        } else if b[k as int] == c[k as int] {
        } else {
            lemma_comp_lt_transitive(a[k as int], b[k as int], c[k as int], f);
            if a[k as int] == c[k as int] {
                lemma_comp_lt_irreflexive(a[k as int], f);
                lemma_comp_lt_transitive(b[k as int], c[k as int], b[k as int], f);
                lemma_comp_lt_irreflexive(b[k as int], f);
            }
        }
    }
}

/// The path order is a strict total order.
pub proof fn lemma_path_lt_order(a: Seq<Seq<char>>, b: Seq<Seq<char>>, c: Seq<Seq<char>>)
    ensures
        !path_lt(a, a),
        a != b ==> path_lt(a, b) || path_lt(b, a),
        path_lt(a, b) && path_lt(b, c) ==> path_lt(a, c),
{
    lemma_comps_irreflexive(a, 0);
    if a != b {
        assert(a.take(0) =~= b.take(0));
        lemma_comps_total(a, b, 0);
    }
    if path_lt(a, b) && path_lt(b, c) {
        lemma_comps_transitive(a, b, c, 0);
    }
}

fn comp_rank_of(c: &str, first: bool) -> (r: u8)
    ensures
        r == comp_rank(c@, first),
{
    proof {
        reveal_strlit("/");
        reveal_strlit(".");
        reveal_strlit("..");
        assert("/"@ =~= seq!['/']);
        assert("."@ =~= seq!['.']);
        assert(".."@ =~= seq!['.', '.']);
    }
    if first && str_eq(c, "/") {
        0
    } else if first && str_eq(c, ".") {
        1
    } else if str_eq(c, "..") {
        2
    } else {
        3
    }
}

fn comp_less(a: &str, b: &str, first: bool) -> (r: bool)
    ensures
        r == comp_lt(a@, b@, first),
{
    let ra = comp_rank_of(a, first);
    let rb = comp_rank_of(b, first);
    ra < rb || (ra == 3 && rb == 3 && lt(a, b))
}

/// Whether the path with components `a` orders before the one with `b`.
pub fn path_less(a: &Vec<String>, b: &Vec<String>) -> (r: bool)
    ensures
        r == path_lt(views(a@), views(b@)),
{
    let ghost av = views(a@);
    let ghost bv = views(b@);
    let mut i: usize = 0;
    while i < a.len() && i < b.len() && str_eq(a[i].as_str(), b[i].as_str())
        invariant
            i <= a.len(),
            i <= b.len(),
            av == views(a@),
            bv == views(b@),
            path_lt(av, bv) == comps_lt_from(av, bv, i as nat),
        decreases a.len() - i,
    {
        i = i + 1;
    }
    if i == a.len() {
        i < b.len()
    } else if i == b.len() {
        false
    } else {
        comp_less(a[i].as_str(), b[i].as_str(), i == 0)
    }
}

/// Whether two component lists are equal.
pub fn same_components(a: &Vec<String>, b: &Vec<String>) -> (r: bool)
    ensures
        r == (views(a@) == views(b@)),
{
    if a.len() != b.len() {
        return false;
    }
    let mut i: usize = 0;
    while i < a.len()
        invariant
            i <= a.len() == b.len(),
            forall|k: int| 0 <= k < i ==> views(a@)[k] == views(b@)[k],
        decreases a.len() - i,
    {
        if !str_eq(a[i].as_str(), b[i].as_str()) {
            assert(views(a@)[i as int] != views(b@)[i as int]);
            return false;
        }
        i = i + 1;
    }
    assert(views(a@) =~= views(b@));
    true
}

/// The components a path is compared and identified by.
#[verifier::opaque]
pub open spec fn path_key(p: Seq<char>) -> Seq<Seq<char>> {
    components(p)
}

/// Paths listed in strictly increasing path order (so no path twice).
pub open spec fn paths_sorted(s: Seq<Seq<char>>) -> bool {
    forall|i: int, j: int|
        0 <= i < j < s.len() ==> path_lt(path_key(#[trigger] s[i]), path_key(#[trigger] s[j]))
}

/// Some listed path is the same path as `p`.
pub open spec fn has_same_path(s: Seq<Seq<char>>, p: Seq<char>) -> bool {
    exists|i: int| 0 <= i < s.len() && path_key(#[trigger] s[i]) == path_key(p)
}

/// `r` lists, in path order, each distinct path among `cands` once, as the
/// first of its spellings to appear in `cands` (a `BTreeSet` keeps the value
/// inserted first).
pub open spec fn is_path_set(r: Seq<Seq<char>>, cands: Seq<Seq<char>>) -> bool {
    &&& paths_sorted(r)
    &&& forall|i: int| 0 <= i < r.len() ==> #[trigger] cands.contains(r[i])
    &&& forall|k: int| 0 <= k < cands.len() ==> #[trigger] has_same_path(r, cands[k])
    &&& forall|i: int, k: int|
        0 <= i < r.len() && 0 <= k < cands.len() && path_key(cands[k]) == path_key(r[i])
            ==> #[trigger] cands.take(k + 1).contains(r[i])
}

/// Inserting the next candidate keeps `is_path_set`.
pub proof fn lemma_path_set_insert(
    r: Seq<Seq<char>>,
    r2: Seq<Seq<char>>,
    cands: Seq<Seq<char>>,
    c: Seq<char>,
)
    requires
        is_path_set(r, cands),
        paths_sorted(r2),
        has_same_path(r, c) ==> r2 == r,
        !has_same_path(r, c) ==> exists|k: int| 0 <= k <= r.len() && r2 == r.insert(k, c),
    ensures
        is_path_set(r2, cands.push(c)),
{
    if has_same_path(r, c) {
        lemma_path_set_keep(r, cands, c);
    } else {
        let at = choose|k: int| 0 <= k <= r.len() && r2 == r.insert(k, c);
        lemma_path_set_add(r, r2, cands, c, at);
    }
}

#[verifier::spinoff_prover]
proof fn lemma_path_set_keep(r: Seq<Seq<char>>, cands: Seq<Seq<char>>, c: Seq<char>)
    requires
        is_path_set(r, cands),
        has_same_path(r, c),
    ensures
        is_path_set(r, cands.push(c)),
{
    let r2 = r;
    let cs = cands.push(c);
    assert(cs.take(cands.len() as int) =~= cands);
    assert forall|i: int| 0 <= i < r2.len() implies cs.contains(#[trigger] r2[i]) by {
        assert(cands.contains(r[i]));
        let k = choose|k: int| 0 <= k < cands.len() && cands[k] == r[i];
        assert(cs[k] == r[i]);
    }
    assert forall|k: int| 0 <= k < cs.len() implies has_same_path(r2, #[trigger] cs[k]) by {
        if k < cands.len() {
            assert(cs[k] == cands[k]);
        }
    }
    assert forall|i: int, k: int|
        0 <= i < r2.len() && 0 <= k < cs.len() && path_key(#[trigger] cs[k]) == path_key(
            #[trigger] r2[i],
        ) implies cs.take(k + 1).contains(r2[i]) by {
        if k < cands.len() {
            assert(cs[k] == cands[k]);
            assert(cands.take(k + 1).contains(r[i]));
            let t = cands.take(k + 1);
            let m = choose|m: int| 0 <= m < t.len() && t[m] == r[i];
            assert(cs.take(k + 1)[m] == r[i]);
        } else {
            assert(cands.contains(r[i]));
            let m = choose|m: int| 0 <= m < cands.len() && cands[m] == r[i];
            assert(cs.take(k + 1)[m] == r[i]);
        }
    }
}

#[verifier::spinoff_prover]
proof fn lemma_path_set_add(
    r: Seq<Seq<char>>,
    r2: Seq<Seq<char>>,
    cands: Seq<Seq<char>>,
    c: Seq<char>,
    at: int,
)
    requires
        is_path_set(r, cands),
        paths_sorted(r2),
        !has_same_path(r, c),
        0 <= at <= r.len(),
        r2 == r.insert(at, c),
    ensures
        is_path_set(r2, cands.push(c)),
{
    lemma_path_set_add_members(r, r2, cands, c, at);
    lemma_path_set_add_cover(r, r2, cands, c, at);
    lemma_path_set_add_first(r, r2, cands, c, at);
}

#[verifier::spinoff_prover]
proof fn lemma_path_set_add_members(
    r: Seq<Seq<char>>,
    r2: Seq<Seq<char>>,
    cands: Seq<Seq<char>>,
    c: Seq<char>,
    at: int,
)
    requires
        is_path_set(r, cands),
        !has_same_path(r, c),
        0 <= at <= r.len(),
        r2 == r.insert(at, c),
    ensures
        forall|i: int| 0 <= i < r2.len() ==> cands.push(c).contains(#[trigger] r2[i]),
{
    let cs = cands.push(c);
    assert(cs.take(cands.len() as int) =~= cands);
    assert forall|i: int| 0 <= i < r2.len() implies cs.contains(#[trigger] r2[i]) by {
        if i == at {
            assert(cs[cands.len() as int] == c);
        } else {
            let j = if i < at {
                i
            } else {
                i - 1
            };
            assert(r2[i] == r[j]);
            assert(cands.contains(r[j]));
            let k = choose|k: int| 0 <= k < cands.len() && cands[k] == r[j];
            assert(cs[k] == r[j]);
        }
    }
}

#[verifier::spinoff_prover]
proof fn lemma_path_set_add_cover(
    r: Seq<Seq<char>>,
    r2: Seq<Seq<char>>,
    cands: Seq<Seq<char>>,
    c: Seq<char>,
    at: int,
)
    requires
        is_path_set(r, cands),
        !has_same_path(r, c),
        0 <= at <= r.len(),
        r2 == r.insert(at, c),
    ensures
        forall|k: int| 0 <= k < cands.push(c).len() ==> has_same_path(r2, #[trigger] cands.push(c)[k]),
{
    let cs = cands.push(c);
    assert(cs.take(cands.len() as int) =~= cands);
    assert forall|k: int| 0 <= k < cs.len() implies has_same_path(r2, #[trigger] cs[k]) by {
        if k < cands.len() {
            assert(cs[k] == cands[k]);
            assert(has_same_path(r, cands[k]));
            let j = choose|j: int| 0 <= j < r.len() && path_key(#[trigger] r[j]) == path_key(
                cands[k],
            );
            if j < at {
                assert(r2[j] == r[j]);
            } else {
                assert(r2[j + 1] == r[j]);
            }
        } else {
            assert(r2[at] == c);
        }
    }
}

#[verifier::spinoff_prover]
proof fn lemma_path_set_add_first(
    r: Seq<Seq<char>>,
    r2: Seq<Seq<char>>,
    cands: Seq<Seq<char>>,
    c: Seq<char>,
    at: int,
)
    requires
        is_path_set(r, cands),
        !has_same_path(r, c),
        0 <= at <= r.len(),
        r2 == r.insert(at, c),
    ensures
        forall|i: int, k: int|
            0 <= i < r2.len() && 0 <= k < cands.push(c).len() && path_key(#[trigger] cands.push(c)[k])
                == path_key(#[trigger] r2[i]) ==> cands.push(c).take(k + 1).contains(r2[i]),
{
    let cs = cands.push(c);
    assert(cs.take(cands.len() as int) =~= cands);
    assert forall|i: int, k: int|
        0 <= i < r2.len() && 0 <= k < cs.len() && path_key(#[trigger] cs[k]) == path_key(
            #[trigger] r2[i],
        ) implies cs.take(k + 1).contains(r2[i]) by {
        if i == at {
            if k < cands.len() {
                assert(cs[k] == cands[k]);
                assert(has_same_path(r, cands[k]));
                let j = choose|j: int|
                    0 <= j < r.len() && path_key(#[trigger] r[j]) == path_key(cands[k]);
                assert(r2[at] == c);
                assert(has_same_path(r, c));
            } else {
                assert(cs.take(k + 1)[k] == c);
            }
        } else {
            let j = if i < at {
                i
            } else {
                i - 1
            };
            assert(r2[i] == r[j]);
            if k < cands.len() {
                assert(cs[k] == cands[k]);
                assert(cands.take(k + 1).contains(r[j]));
                let t = cands.take(k + 1);
                let m = choose|m: int| 0 <= m < t.len() && t[m] == r[j];
                assert(cs.take(k + 1)[m] == r[j]);
            } else {
                assert(path_key(c) == path_key(r[j]));
                assert(has_same_path(r, c));
            }
        }
    }
}

/// A set of paths in path order (`BTreeSet<PathBuf>`), each path held with
/// its components.
pub struct PathSet {
    paths: Vec<String>,
    comps: Vec<Vec<String>>,
}

impl PathSet {
    pub closed spec fn view_paths(self) -> Seq<Seq<char>> {
        views(self.paths@)
    }

    #[verifier::type_invariant]
    closed spec fn well_formed(self) -> bool {
        &&& self.paths@.len() == self.comps@.len()
        &&& forall|i: int|
            0 <= i < self.paths@.len() ==> views(#[trigger] self.comps@[i]@) == path_key(
                self.paths@[i]@,
            )
        &&& paths_sorted(views(self.paths@))
    }

    pub fn new() -> (r: Self)
        ensures
            r.view_paths() == Seq::<Seq<char>>::empty(),
    {
        PathSet { paths: Vec::new(), comps: Vec::new() }
    }

    /// `BTreeSet::insert`: the path is added in order, unless the same path
    /// is already there, in which case the set stays as it is.
    pub fn insert(&mut self, p: String)
        ensures
            paths_sorted(final(self).view_paths()),
            has_same_path(old(self).view_paths(), p@) ==> final(self).view_paths() == old(
                self,
            ).view_paths(),
            !has_same_path(old(self).view_paths(), p@) ==> exists|k: int|
                0 <= k <= old(self).view_paths().len() && final(self).view_paths() == old(
                    self,
                ).view_paths().insert(k, p@),
    {
        proof {
            use_type_invariant(&*self);
        }
        let pc = component_texts(p.as_str());
        proof {
            reveal(path_key);
        }
        let ghost old_paths = views(self.paths@);
        let mut i: usize = 0;
        let mut stop = false;
        while !stop && i < self.paths.len()
            invariant
                i <= self.paths@.len(),
                self.paths@.len() == self.comps@.len(),
                old_paths == views(self.paths@),
                paths_sorted(old_paths),
                views(pc@) == path_key(p@),
                forall|k: int|
                    0 <= k < self.paths@.len() ==> views(#[trigger] self.comps@[k]@) == path_key(
                        self.paths@[k]@,
                    ),
                forall|k: int|
                    0 <= k < i ==> path_lt(path_key(#[trigger] old_paths[k]), path_key(p@)),
                stop ==> i < old_paths.len() && path_lt(
                    path_key(p@),
                    path_key(old_paths[i as int]),
                ),
            decreases self.paths@.len() - i + (if stop {
                0int
            } else {
                1int
            }),
        {
            proof {
                assert(old_paths[i as int] == self.paths@[i as int]@);
            }
            if same_components(&self.comps[i], &pc) {
                assert(has_same_path(old_paths, p@));
                return;
            }
            if path_less(&pc, &self.comps[i]) {
                stop = true;
            } else {
                proof {
                    lemma_path_lt_order(
                        path_key(old_paths[i as int]),
                        path_key(p@),
                        path_key(p@),
                    );
                }
                i = i + 1;
            }
        }
        // Every path before `i` orders before `p`; from `i` on (if any),
        // every path orders after it.
        proof {
            assert forall|k: int| 0 <= k < old_paths.len() implies path_key(
                #[trigger] old_paths[k],
            ) != path_key(p@) by {
                if k < i {
                    lemma_path_lt_order(path_key(p@), path_key(p@), path_key(p@));
                } else {
                    lemma_path_lt_order(
                        path_key(p@),
                        path_key(old_paths[i as int]),
                        path_key(old_paths[k]),
                    );
                    lemma_path_lt_order(path_key(p@), path_key(p@), path_key(p@));
                }
            }
        }
        let ghost pv = p@;
        let mut whole = PathSet::new();
        std::mem::swap(&mut whole, self);
        let PathSet { mut paths, mut comps } = whole;
        let ghost old_comps = comps@;
        paths.insert(i, p);
        comps.insert(i, pc);
        proof {
            let np = views(paths@);
            assert(np =~= old_paths.insert(i as int, pv));
            assert forall|a: int, b: int| 0 <= a < b < np.len() implies path_lt(
                path_key(#[trigger] np[a]),
                path_key(#[trigger] np[b]),
            ) by {
                if b < i {
                } else if a < i && b == i {
                } else if a < i {
                    lemma_path_lt_order(
                        path_key(old_paths[a]),
                        path_key(pv),
                        path_key(old_paths[b - 1]),
                    );
                    if b - 1 > i {
                        lemma_path_lt_order(
                            path_key(pv),
                            path_key(old_paths[i as int]),
                            path_key(old_paths[b - 1]),
                        );
                    }
                } else if a == i {
                    if b - 1 > i {
                        lemma_path_lt_order(
                            path_key(pv),
                            path_key(old_paths[i as int]),
                            path_key(old_paths[b - 1]),
                        );
                    }
                } else {
                }
            }
            assert forall|k: int| 0 <= k < paths@.len() implies views(
                #[trigger] comps@[k]@,
            ) == path_key(paths@[k]@) by {
                if k < i {
                } else if k == i {
                } else {
                    assert(comps@[k] == old_comps[k - 1]);
                }
            }
        }
        *self = PathSet { paths, comps };
    }

    /// The paths, in order.
    pub fn into_paths(self) -> (r: Vec<String>)
        ensures
            views(r@) == self.view_paths(),
            paths_sorted(views(r@)),
    {
        proof {
            use_type_invariant(&self);
        }
        self.paths
    }
}

} // verus!
