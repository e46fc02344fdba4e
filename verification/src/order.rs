//! Lexicographic order on strings (the order of `Ord for str`, which
//! compares UTF-8 bytes and therefore code points) and sorted, duplicate-free
//! string lists: the ordered sets the reports are built from.

use vstd::prelude::*;

verus! {

/// `a < b` in the lexicographic order of code points.
pub open spec fn str_lt(a: Seq<char>, b: Seq<char>) -> bool
    decreases a.len(),
{
    if a.len() == 0 {
        b.len() > 0
    } else if b.len() == 0 {
        false
    } else if (a[0] as u32) < (b[0] as u32) {
        true
    } else if a[0] == b[0] {
        str_lt(a.drop_first(), b.drop_first())
    } else {
        false
    }
}

pub proof fn lemma_lt_irreflexive(a: Seq<char>)
    ensures
        !str_lt(a, a),
    decreases a.len(),
{
    if a.len() > 0 {
        lemma_lt_irreflexive(a.drop_first());
    }
}

pub proof fn lemma_lt_asymmetric(a: Seq<char>, b: Seq<char>)
    ensures
        !(str_lt(a, b) && str_lt(b, a)),
    decreases a.len(),
{
    if a.len() > 0 && b.len() > 0 && a[0] == b[0] {
        lemma_lt_asymmetric(a.drop_first(), b.drop_first());
    }
}

pub proof fn lemma_lt_total(a: Seq<char>, b: Seq<char>)
    ensures
        a != b ==> str_lt(a, b) || str_lt(b, a),
    decreases a.len(),
{
    if a.len() > 0 && b.len() > 0 {
        if a[0] == b[0] {
            lemma_lt_total(a.drop_first(), b.drop_first());
            if a.drop_first() == b.drop_first() {
                assert(a =~= seq![a[0]] + a.drop_first());
                assert(b =~= seq![b[0]] + b.drop_first());
            }
        } else {
            vstd::utf8::char_u32_cast(a[0], a[0] as u32);
            vstd::utf8::char_u32_cast(b[0], b[0] as u32);
        }
    } else if a.len() == 0 && b.len() == 0 {
        assert(a =~= b);
    }
}

pub proof fn lemma_lt_transitive(a: Seq<char>, b: Seq<char>, c: Seq<char>)
    requires
        str_lt(a, b),
        str_lt(b, c),
    ensures
        str_lt(a, c),
    decreases a.len(),
{
    if a.len() > 0 && b.len() > 0 && c.len() > 0 && a[0] == b[0] && b[0] == c[0] {
        lemma_lt_transitive(a.drop_first(), b.drop_first(), c.drop_first());
    }
}

/// Character-by-character comparison (`Ord for str`).
pub fn lt(a: &str, b: &str) -> (r: bool)
    ensures
        r == str_lt(a@, b@),
{
    let av = crate::text::chars_of(a);
    let bv = crate::text::chars_of(b);
    let mut i: usize = 0;
    assert(a@.skip(0) =~= a@ && b@.skip(0) =~= b@);
    while i < av.len() && i < bv.len() && av[i] == bv[i]
        invariant
            i <= av.len(),
            i <= bv.len(),
            av@ == a@,
            bv@ == b@,
            forall|k: int| 0 <= k < i ==> av@[k] == bv@[k],
            str_lt(a@, b@) == str_lt(a@.skip(i as int), b@.skip(i as int)),
        decreases av.len() - i,
    {
        proof {
            let x = a@.skip(i as int);
            let y = b@.skip(i as int);
            assert(x.drop_first() =~= a@.skip(i + 1));
            assert(y.drop_first() =~= b@.skip(i + 1));
        }
        i = i + 1;
    }
    proof {
        if i < av.len() && i < bv.len() {
            assert(a@.skip(i as int)[0] == av@[i as int]);
            assert(b@.skip(i as int)[0] == bv@[i as int]);
        }
    }
    if i == av.len() {
        i < bv.len()
    } else if i == bv.len() {
        false
    } else {
        (av[i] as u32) < (bv[i] as u32)
    }
}

/// `s` is strictly increasing, hence also free of duplicates.
pub open spec fn is_sorted_set(s: Seq<Seq<char>>) -> bool {
    forall|i: int, j: int| 0 <= i < j < s.len() ==> str_lt(#[trigger] s[i], #[trigger] s[j])
}

/// Two strictly increasing lists with the same elements are equal: the
/// listing of a set in order is unique.
pub proof fn lemma_sorted_set_unique(a: Seq<Seq<char>>, b: Seq<Seq<char>>)
    requires
        is_sorted_set(a),
        is_sorted_set(b),
        a.to_set() == b.to_set(),
    ensures
        a == b,
    decreases a.len(),
{
    if a.len() == 0 {
        if b.len() > 0 {
            assert(b.to_set().contains(b[0]));
        }
        assert(a =~= b);
    } else if b.len() == 0 {
        assert(a.to_set().contains(a[0]));
    } else {
        assert(a.to_set().contains(a[0]));
        assert(b.to_set().contains(b[0]));
        let i = choose|i: int| 0 <= i < b.len() && b[i] == a[0];
        let j = choose|j: int| 0 <= j < a.len() && a[j] == b[0];
        if a[0] != b[0] {
            assert(i > 0);
            assert(j > 0);
            assert(str_lt(b[0], b[i]));
            assert(str_lt(a[0], a[j]));
            lemma_lt_asymmetric(a[0], b[0]);
        }
        let a1 = a.drop_first();
        let b1 = b.drop_first();
        assert(is_sorted_set(a1)) by {
            assert forall|x: int, y: int| 0 <= x < y < a1.len() implies str_lt(
                #[trigger] a1[x],
                #[trigger] a1[y],
            ) by {
                assert(a1[x] == a[x + 1] && a1[y] == a[y + 1]);
            }
        }
        assert(is_sorted_set(b1)) by {
            assert forall|x: int, y: int| 0 <= x < y < b1.len() implies str_lt(
                #[trigger] b1[x],
                #[trigger] b1[y],
            ) by {
                assert(b1[x] == b[x + 1] && b1[y] == b[y + 1]);
            }
        }
        assert(a1.to_set() =~= b1.to_set()) by {
            assert forall|q: Seq<char>| a1.to_set().contains(q) implies b1.to_set().contains(q) by {
                let x = choose|x: int| 0 <= x < a1.len() && a1[x] == q;
                assert(a.to_set().contains(q)) by {
                    assert(a[x + 1] == q);
                }
                let y = choose|y: int| 0 <= y < b.len() && b[y] == q;
                assert(str_lt(a[0], a[x + 1]));
                if y == 0 {
                    lemma_lt_irreflexive(q);
                }
                assert(b1[y - 1] == q);
            }
            assert forall|q: Seq<char>| b1.to_set().contains(q) implies a1.to_set().contains(q) by {
                let x = choose|x: int| 0 <= x < b1.len() && b1[x] == q;
                assert(b.to_set().contains(q)) by {
                    assert(b[x + 1] == q);
                }
                let y = choose|y: int| 0 <= y < a.len() && a[y] == q;
                assert(str_lt(b[0], b[x + 1]));
                if y == 0 {
                    lemma_lt_irreflexive(q);
                }
                assert(a1[y - 1] == q);
            }
        }
        lemma_sorted_set_unique(a1, b1);
        assert(a =~= seq![a[0]] + a1);
        assert(b =~= seq![b[0]] + b1);
    }
}

/// Inserts `s` into the sorted set `v` (a no-op when it is already there),
/// as `BTreeSet::insert` does; returns whether it was newly added.
pub fn insert_sorted(v: &mut Vec<String>, s: String) -> (added: bool)
    requires
        is_sorted_set(crate::text::views(old(v)@)),
    ensures
        is_sorted_set(crate::text::views(final(v)@)),
        crate::text::views(final(v)@).to_set() == crate::text::views(old(v)@).to_set().insert(s@),
        added == !crate::text::views(old(v)@).contains(s@),
{
    let ghost old_views = crate::text::views(v@);
    let mut i: usize = 0;
    while i < v.len() && lt(v[i].as_str(), s.as_str())
        invariant
            i <= v.len(),
            old_views == crate::text::views(v@),
            is_sorted_set(old_views),
            forall|k: int| 0 <= k < i ==> str_lt(#[trigger] old_views[k], s@),
        decreases v.len() - i,
    {
        i = i + 1;
    }
    proof {
        assert forall|k: int| 0 <= k < i implies #[trigger] old_views[k] != s@ by {
            lemma_lt_irreflexive(s@);
        }
    }
    if i < v.len() && crate::text::str_eq(v[i].as_str(), s.as_str()) {
        proof {
            assert(old_views[i as int] == s@);
            assert(old_views.to_set().insert(s@) =~= old_views.to_set());
        }
        return false;
    }
    proof {
        if i < old_views.len() {
            lemma_lt_total(old_views[i as int], s@);
        }
        assert forall|k: int| i <= k < old_views.len() implies str_lt(s@, #[trigger] old_views[k]) by {
            if k > i {
                lemma_lt_transitive(s@, old_views[i as int], old_views[k]);
            }
        }
        assert forall|k: int| 0 <= k < old_views.len() implies #[trigger] old_views[k] != s@ by {
            if k >= i {
                lemma_lt_irreflexive(s@);
            }
        }
    }
    v.insert(i, s);
    proof {
        let nv = crate::text::views(v@);
        assert(nv =~= old_views.insert(i as int, s@));
        assert forall|x: int, y: int| 0 <= x < y < nv.len() implies str_lt(
            #[trigger] nv[x],
            #[trigger] nv[y],
        ) by {
            if y < i {
            } else if x < i && y == i {
            } else if x < i && y > i {
                assert(nv[y] == old_views[y - 1]);
                lemma_lt_transitive(old_views[x], s@, old_views[y - 1]);
            } else if x == i {
                assert(nv[y] == old_views[y - 1]);
            } else {
                assert(nv[x] == old_views[x - 1] && nv[y] == old_views[y - 1]);
            }
        }
        assert(nv.to_set() =~= old_views.to_set().insert(s@)) by {
            assert forall|q: Seq<char>| nv.to_set().contains(q) implies old_views.to_set().insert(
                s@,
            ).contains(q) by {
                let x = choose|x: int| 0 <= x < nv.len() && nv[x] == q;
                if x < i {
                    assert(old_views[x] == q);
                } else if x > i {
                    assert(old_views[x - 1] == q);
                }
            }
            assert forall|q: Seq<char>| old_views.to_set().insert(s@).contains(q) implies nv.to_set().contains(q) by {
                if q == s@ {
                    assert(nv[i as int] == q);
                } else {
                    let x = choose|x: int| 0 <= x < old_views.len() && old_views[x] == q;
                    if x < i {
                        assert(nv[x] == q);
                    } else {
                        assert(nv[x + 1] == q);
                    }
                }
            }
        }
    }
    true
}

} // verus!

verus! {

/// `a < b` in the lexicographic order of bytes (the order of `OsStr`
/// names on Unix).
pub open spec fn bytes_lt(a: Seq<u8>, b: Seq<u8>) -> bool
    decreases a.len(),
{
    if a.len() == 0 {
        b.len() > 0
    } else if b.len() == 0 {
        false
    } else if a[0] < b[0] {
        true
    } else if a[0] == b[0] {
        bytes_lt(a.drop_first(), b.drop_first())
    } else {
        false
    }
}

pub open spec fn bytes_le(a: Seq<u8>, b: Seq<u8>) -> bool {
    a == b || bytes_lt(a, b)
}

pub proof fn lemma_bytes_lt_irreflexive(a: Seq<u8>)
    ensures
        !bytes_lt(a, a),
    decreases a.len(),
{
    if a.len() > 0 {
        lemma_bytes_lt_irreflexive(a.drop_first());
    }
}

pub proof fn lemma_bytes_lt_total(a: Seq<u8>, b: Seq<u8>)
    ensures
        a != b ==> bytes_lt(a, b) || bytes_lt(b, a),
    decreases a.len(),
{
    if a.len() > 0 && b.len() > 0 {
        if a[0] == b[0] {
            lemma_bytes_lt_total(a.drop_first(), b.drop_first());
            if a.drop_first() == b.drop_first() {
                assert(a =~= seq![a[0]] + a.drop_first());
                assert(b =~= seq![b[0]] + b.drop_first());
            }
        }
    } else if a.len() == 0 && b.len() == 0 {
        assert(a =~= b);
    }
}

pub proof fn lemma_bytes_lt_transitive(a: Seq<u8>, b: Seq<u8>, c: Seq<u8>)
    requires
        bytes_lt(a, b),
        bytes_lt(b, c),
    ensures
        bytes_lt(a, c),
    decreases a.len(),
{
    if a.len() > 0 && b.len() > 0 && c.len() > 0 && a[0] == b[0] && b[0] == c[0] {
        lemma_bytes_lt_transitive(a.drop_first(), b.drop_first(), c.drop_first());
    }
}

pub proof fn lemma_bytes_le_transitive(a: Seq<u8>, b: Seq<u8>, c: Seq<u8>)
    requires
        bytes_le(a, b),
        bytes_le(b, c),
    ensures
        bytes_le(a, c),
{
    if bytes_lt(a, b) && bytes_lt(b, c) {
        lemma_bytes_lt_transitive(a, b, c);
    }
}

/// Byte-wise comparison of two names.
pub fn bytes_less(a: &Vec<u8>, b: &Vec<u8>) -> (r: bool)
    ensures
        r == bytes_lt(a@, b@),
{
    let mut i: usize = 0;
    assert(a@.skip(0) =~= a@ && b@.skip(0) =~= b@);
    while i < a.len() && i < b.len() && a[i] == b[i]
        invariant
            i <= a.len(),
            i <= b.len(),
            bytes_lt(a@, b@) == bytes_lt(a@.skip(i as int), b@.skip(i as int)),
        decreases a.len() - i,
    {
        proof {
            assert(a@.skip(i as int).drop_first() =~= a@.skip(i + 1));
            assert(b@.skip(i as int).drop_first() =~= b@.skip(i + 1));
        }
        i = i + 1;
    }
    proof {
        if i < a.len() && i < b.len() {
            assert(a@.skip(i as int)[0] == a@[i as int]);
            assert(b@.skip(i as int)[0] == b@[i as int]);
        }
    }
    if i == a.len() {
        i < b.len()
    } else if i == b.len() {
        false
    } else {
        a[i] < b[i]
    }
}

/// `s` in non-decreasing byte order.
pub open spec fn is_sorted_bytes(s: Seq<Seq<u8>>) -> bool {
    forall|i: int, j: int| 0 <= i < j < s.len() ==> bytes_le(#[trigger] s[i], #[trigger] s[j])
}

pub open spec fn byte_views(v: Seq<Vec<u8>>) -> Seq<Seq<u8>> {
    v.map_values(|x: Vec<u8>| x@)
}

/// The names in byte order (`sort_by_key` on the names): the same names,
/// each as often as given, in non-decreasing order.
pub fn sort_names(names: &Vec<Vec<u8>>) -> (r: Vec<Vec<u8>>)
    ensures
        is_sorted_bytes(byte_views(r@)),
        byte_views(r@).to_multiset() == byte_views(names@).to_multiset(),
{
    let mut r: Vec<Vec<u8>> = Vec::new();
    let mut i: usize = 0;
    proof {
        byte_views(r@).to_multiset_ensures();
        byte_views(names@).take(0).to_multiset_ensures();
        assert(byte_views(r@).to_multiset() =~= byte_views(names@).take(0).to_multiset()) by {
            broadcast use vstd::multiset::group_multiset_axioms;

        }
    }
    while i < names.len()
        invariant
            i <= names.len(),
            is_sorted_bytes(byte_views(r@)),
            byte_views(r@).to_multiset() == byte_views(names@).take(i as int).to_multiset(),
        decreases names.len() - i,
    {
        let x = names[i].clone();
        let ghost rv = byte_views(r@);
        let mut k: usize = 0;
        while k < r.len() && !bytes_less(&x, &r[k])
            invariant
                k <= r.len(),
                i < names@.len(),
                rv == byte_views(r@),
                x@ == names@[i as int]@,
                forall|m: int| 0 <= m < k ==> bytes_le(#[trigger] rv[m], x@),
            decreases r.len() - k,
        {
            proof {
                lemma_bytes_lt_total(x@, rv[k as int]);
            }
            k = k + 1;
        }
        r.insert(k, x);
        proof {
            let nv = byte_views(r@);
            assert(nv =~= rv.insert(k as int, names@[i as int]@));
            assert forall|a: int, b: int| 0 <= a < b < nv.len() implies bytes_le(
                #[trigger] nv[a],
                #[trigger] nv[b],
            ) by {
                let xv = names@[i as int]@;
                if b < k {
                } else if a < k && b == k {
                } else if a < k && b > k {
                    assert(nv[b] == rv[b - 1]);
                    if k < rv.len() {
                        assert(bytes_lt(xv, rv[k as int]));
                        if b - 1 > k {
                            assert(bytes_le(rv[k as int], rv[b - 1]));
                            lemma_bytes_le_transitive(xv, rv[k as int], rv[b - 1]);
                        }
                        assert(bytes_le(xv, rv[b - 1]));
                        lemma_bytes_le_transitive(rv[a], xv, rv[b - 1]);
                    }
                } else if a == k {
                    assert(nv[b] == rv[b - 1]);
                    assert(bytes_lt(xv, rv[k as int]));
                    if b - 1 > k {
                        assert(bytes_le(rv[k as int], rv[b - 1]));
                        lemma_bytes_le_transitive(xv, rv[k as int], rv[b - 1]);
                    }
                } else {
                    assert(nv[a] == rv[a - 1] && nv[b] == rv[b - 1]);
                }
            }
            let ins = rv.insert(k as int, names@[i as int]@);
            assert(ins.remove(k as int) =~= rv);
            assert(ins[k as int] == names@[i as int]@);
            ins.to_multiset_ensures();
            assert(ins.remove(k as int).to_multiset() =~= ins.to_multiset().remove(ins[k as int]));
            assert(ins.contains(ins[k as int]));
            assert(ins.to_multiset().count(ins[k as int]) > 0);
            assert(ins.to_multiset() =~= rv.to_multiset().insert(names@[i as int]@)) by {
                broadcast use vstd::multiset::group_multiset_axioms;

            }
            assert(byte_views(names@).take(i + 1) =~= byte_views(names@).take(i as int).push(
                names@[i as int]@,
            ));
            byte_views(names@).take(i as int).to_multiset_ensures();
        }
        i = i + 1;
    }
    assert(byte_views(names@).take(names@.len() as int) =~= byte_views(names@));
    r
}

} // verus!
