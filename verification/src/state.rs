//! The small persisted key/value store plugins use to remember things
//! across ticks and restarts (last report, last restart attempt, last PR
//! state). This module holds the store itself; reading it from and writing
//! it to disk as one JSON object is done by the binary.

use vstd::prelude::*;

verus! {

/// A stored value. The plugins read strings, integers and booleans; any
/// other JSON value is kept verbatim (as its JSON text) so that it survives
/// a rewrite of the store.
#[derive(Debug)]
pub enum StateValue {
    Null,
    Bool(bool),
    Int(i64),
    Str(String),
    Other(String),
}

/// The mathematical form of a stored value.
pub enum StateValueView {
    Null,
    Bool(bool),
    Int(int),
    Str(Seq<char>),
    Other(Seq<char>),
}

impl View for StateValue {
    type V = StateValueView;

    open spec fn view(&self) -> StateValueView {
        match self {
            StateValue::Null => StateValueView::Null,
            StateValue::Bool(b) => StateValueView::Bool(*b),
            StateValue::Int(i) => StateValueView::Int(*i as int),
            StateValue::Str(s) => StateValueView::Str(s@),
            StateValue::Other(s) => StateValueView::Other(s@),
        }
    }
}

impl Clone for StateValue {
    fn clone(&self) -> (r: Self)
        ensures
            r@ == self@,
    {
        match self {
            StateValue::Null => StateValue::Null,
            StateValue::Bool(b) => StateValue::Bool(*b),
            StateValue::Int(i) => StateValue::Int(*i),
            StateValue::Str(s) => StateValue::Str(s.clone()),
            StateValue::Other(s) => StateValue::Other(s.clone()),
        }
    }
}

impl StateValue {
    /// The string held by a string value (`Value::as_str`).
    pub fn as_str(&self) -> (r: Option<String>)
        ensures
            match self@ {
                StateValueView::Str(s) => r is Some && r->0@ == s,
                _ => r is None,
            },
    {
        match self {
            StateValue::Str(s) => Some(s.clone()),
            _ => None,
        }
    }

    /// The integer held by an integer value (`Value::as_i64`).
    pub fn as_i64(&self) -> (r: Option<i64>)
        ensures
            match self@ {
                StateValueView::Int(i) => r == Some(i as i64),
                _ => r is None,
            },
    {
        match self {
            StateValue::Int(i) => Some(*i),
            _ => None,
        }
    }

    /// The boolean held by a boolean value (`Value::as_bool`).
    pub fn as_bool(&self) -> (r: Option<bool>)
        ensures
            match self@ {
                StateValueView::Bool(b) => r == Some(b),
                _ => r is None,
            },
    {
        match self {
            StateValue::Bool(b) => Some(*b),
            _ => None,
        }
    }
}

/// The key/value store: each key at most once.
pub struct StateStore {
    entries: Vec<(String, StateValue)>,
}

impl StateStore {
    /// The key stored at position `i`.
    pub closed spec fn key_at(self, i: int) -> Seq<char> {
        self.entries@[i].0@
    }

    /// Whether `k` is stored at some position.
    pub closed spec fn has_key(self, k: Seq<char>) -> bool {
        exists|i: int| 0 <= i < self.entries@.len() && #[trigger] self.key_at(i) == k
    }

    /// The position at which `k` is stored.
    pub closed spec fn position(self, k: Seq<char>) -> int {
        choose|i: int| 0 <= i < self.entries@.len() && #[trigger] self.key_at(i) == k
    }

    #[verifier::type_invariant]
    closed spec fn keys_unique(self) -> bool {
        forall|i: int, j: int|
            0 <= i < j < self.entries@.len() ==> #[trigger] self.key_at(i) != #[trigger] self.key_at(
                j,
            )
    }

    /// The store as a map from keys to values.
    pub closed spec fn as_map(self) -> Map<Seq<char>, StateValueView> {
        Map::new(|k: Seq<char>| self.has_key(k), |k: Seq<char>| self.entries@[self.position(k)].1@)
    }

    proof fn lemma_position(self, i: int)
        requires
            self.keys_unique(),
            0 <= i < self.entries@.len(),
        ensures
            self.has_key(self.key_at(i)),
            self.position(self.key_at(i)) == i,
            self.as_map().contains_key(self.key_at(i)),
            self.as_map()[self.key_at(i)] == self.entries@[i].1@,
    {
        let k = self.key_at(i);
        assert(self.has_key(k));
        let p = self.position(k);
        if p != i {
            if p < i {
                assert(self.key_at(p) != self.key_at(i));
            } else {
                assert(self.key_at(i) != self.key_at(p));
            }
        }
    }

    /// An empty store.
    pub fn new() -> (s: Self)
        ensures
            s@ == Map::<Seq<char>, StateValueView>::empty(),
    {
        let s = StateStore { entries: Vec::new() };
        assert(s.as_map() =~= Map::<Seq<char>, StateValueView>::empty());
        s
    }

    /// Position of `key`, if stored.
    fn find(&self, key: &str) -> (r: Option<usize>)
        ensures
            match r {
                Some(i) => i < self.entries@.len() && self.key_at(i as int) == key@,
                None => !self.has_key(key@),
            },
    {
        let mut i: usize = 0;
        while i < self.entries.len()
            invariant
                i <= self.entries@.len(),
                forall|j: int| 0 <= j < i ==> #[trigger] self.key_at(j) != key@,
            decreases self.entries.len() - i,
        {
            if crate::text::str_eq(self.entries[i].0.as_str(), key) {
                return Some(i);
            }
            i = i + 1;
        }
        None
    }

    /// The value stored under `key`.
    pub fn get(&self, key: &str) -> (r: Option<StateValue>)
        ensures
            match r {
                Some(v) => self@.contains_key(key@) && v@ == self@[key@],
                None => !self@.contains_key(key@),
            },
    {
        proof {
            use_type_invariant(self);
        }
        match self.find(key) {
            Some(i) => {
                proof {
                    self.lemma_position(i as int);
                }
                Some(self.entries[i].1.clone())
            },
            None => None,
        }
    }

    /// The string stored under `key`, if the value there is a string.
    pub fn get_str(&self, key: &str) -> (r: Option<String>)
        ensures
            match r {
                Some(s) => self@.contains_key(key@) && self@[key@] == StateValueView::Str(s@),
                None => !(self@.contains_key(key@) && self@[key@] is Str),
            },
    {
        match self.get(key) {
            Some(v) => v.as_str(),
            None => None,
        }
    }

    /// Stores `value` under `key`, replacing any earlier value.
    pub fn set(&mut self, key: &str, value: StateValue)
        ensures
            final(self)@ == old(self)@.insert(key@, value@),
    {
        proof {
            use_type_invariant(&*self);
        }
        let ghost before = *self;
        let ghost vv = value@;
        let k = key.to_owned();
        match self.find(key) {
            Some(i) => {
                let mut entries: Vec<(String, StateValue)> = Vec::new();
                std::mem::swap(&mut entries, &mut self.entries);
                entries.set(i, (k, value));
                proof {
                    assert forall|a: int, b: int|
                        0 <= a < b < entries@.len() implies #[trigger] entries@[a].0@
                        != #[trigger] entries@[b].0@ by {
                        if a != i && b != i {
                            assert(before.key_at(a) != before.key_at(b));
                        } else if a == i {
                            assert(before.key_at(i as int) != before.key_at(b));
                        } else {
                            assert(before.key_at(a) != before.key_at(i as int));
                        }
                    }
                }
                self.entries = entries;
                proof {
                    let after = *self;
                    assert(after.keys_unique()) by {
                        assert forall|a: int, b: int|
                            0 <= a < b < after.entries@.len() implies #[trigger] after.key_at(a)
                            != #[trigger] after.key_at(b) by {
                            assert(after.key_at(a) == after.entries@[a].0@);
                        }
                    }
                    assert forall|q: Seq<char>| #[trigger]
                        after.as_map().contains_key(q) == before.as_map().insert(
                            key@,
                            vv,
                        ).contains_key(q) by {
                        if after.has_key(q) {
                            let j = choose|j: int|
                                0 <= j < after.entries@.len() && #[trigger] after.key_at(j) == q;
                            if j != i {
                                assert(before.key_at(j) == q);
                            }
                        }
                        if before.has_key(q) {
                            let j = choose|j: int|
                                0 <= j < before.entries@.len() && #[trigger] before.key_at(j)
                                    == q;
                            assert(after.key_at(j) == q || j == i);
                            if j == i {
                                assert(after.key_at(i as int) == key@);
                            }
                        }
                        if q == key@ {
                            assert(after.key_at(i as int) == q);
                        }
                    }
                    assert forall|q: Seq<char>| #[trigger] after.as_map().contains_key(q)
                        implies after.as_map()[q] == before.as_map().insert(key@, vv)[q] by {
                        let j = choose|j: int|
                            0 <= j < after.entries@.len() && #[trigger] after.key_at(j) == q;
                        after.lemma_position(j);
                        if j == i {
                        } else {
                            assert(before.key_at(j) == q);
                            before.lemma_position(j);
                        }
                    }
                    assert(after.as_map() =~= before.as_map().insert(key@, vv));
                }
            },
            None => {
                let mut entries: Vec<(String, StateValue)> = Vec::new();
                std::mem::swap(&mut entries, &mut self.entries);
                entries.push((k, value));
                proof {
                    assert forall|a: int, b: int|
                        0 <= a < b < entries@.len() implies #[trigger] entries@[a].0@
                        != #[trigger] entries@[b].0@ by {
                        if b < before.entries@.len() {
                            assert(before.key_at(a) != before.key_at(b));
                        } else {
                            assert(before.key_at(a) == entries@[a].0@);
                        }
                    }
                }
                self.entries = entries;
                proof {
                    let after = *self;
                    let n = before.entries@.len() as int;
                    assert forall|q: Seq<char>| #[trigger]
                        after.as_map().contains_key(q) == before.as_map().insert(
                            key@,
                            vv,
                        ).contains_key(q) by {
                        if after.has_key(q) {
                            let j = choose|j: int|
                                0 <= j < after.entries@.len() && #[trigger] after.key_at(j) == q;
                            if j != n {
                                assert(before.key_at(j) == q);
                            }
                        }
                        if before.has_key(q) {
                            let j = choose|j: int|
                                0 <= j < before.entries@.len() && #[trigger] before.key_at(j)
                                    == q;
                            assert(after.key_at(j) == q);
                        }
                        if q == key@ {
                            assert(after.key_at(n) == q);
                        }
                    }
                    assert forall|q: Seq<char>| #[trigger] after.as_map().contains_key(q)
                        implies after.as_map()[q] == before.as_map().insert(key@, vv)[q] by {
                        let j = choose|j: int|
                            0 <= j < after.entries@.len() && #[trigger] after.key_at(j) == q;
                        after.lemma_position(j);
                        if j != n {
                            assert(before.key_at(j) == q);
                            before.lemma_position(j);
                        }
                    }
                    assert(after.as_map() =~= before.as_map().insert(key@, vv));
                }
            },
        }
    }

    /// The stored keys and values, each key once, for writing the store out.
    pub fn entries(&self) -> (r: &Vec<(String, StateValue)>)
        ensures
            r@.len() == self@.dom().len(),
            forall|i: int|
                0 <= i < r@.len() ==> self@.contains_key(#[trigger] r@[i].0@) && self@[r@[i].0@]
                    == r@[i].1@,
            forall|k: Seq<char>|
                #[trigger] self@.contains_key(k) ==> exists|i: int|
                    0 <= i < r@.len() && #[trigger] r@[i].0@ == k,
    {
        proof {
            use_type_invariant(self);
            assert forall|i: int| 0 <= i < self.entries@.len() implies self@.contains_key(
                #[trigger] self.entries@[i].0@,
            ) && self@[self.entries@[i].0@] == self.entries@[i].1@ by {
                self.lemma_position(i);
            }
            self.lemma_dom_len();
        }
        &self.entries
    }

    proof fn lemma_dom_len(self)
        requires
            self.keys_unique(),
        ensures
            self.as_map().dom().len() == self.entries@.len(),
    {
        let keys = self.entries@.map_values(|e: (String, StateValue)| e.0@);
        assert(keys.no_duplicates()) by {
            assert forall|a: int, b: int|
                0 <= a < keys.len() && 0 <= b < keys.len() && a != b implies keys[a]
                != keys[b] by {
                if a < b {
                    assert(self.key_at(a) != self.key_at(b));
                } else {
                    assert(self.key_at(b) != self.key_at(a));
                }
            }
        }
        assert(self.as_map().dom() =~= keys.to_set()) by {
            assert forall|q: Seq<char>| self.as_map().dom().contains(q) <==> keys.to_set().contains(
                q,
            ) by {
                if self.has_key(q) {
                    let j = choose|j: int|
                        0 <= j < self.entries@.len() && #[trigger] self.key_at(j) == q;
                    assert(keys[j] == q);
                }
                if keys.to_set().contains(q) {
                    let j = choose|j: int| 0 <= j < keys.len() && keys[j] == q;
                    assert(self.key_at(j) == q);
                }
            }
        }
        keys.unique_seq_to_set();
    }
}

impl View for StateStore {
    type V = Map<Seq<char>, StateValueView>;

    closed spec fn view(&self) -> Map<Seq<char>, StateValueView> {
        self.as_map()
    }
}

/// Reading a key right after writing it gives back the written value, and
/// writing one key leaves every other key as it was.
pub proof fn law_read_after_write(
    before: Map<Seq<char>, StateValueView>,
    key: Seq<char>,
    value: StateValueView,
    other: Seq<char>,
)
    ensures
        before.insert(key, value).contains_key(key),
        before.insert(key, value)[key] == value,
        other != key ==> before.insert(key, value).contains_key(other) == before.contains_key(
            other,
        ),
        other != key && before.contains_key(other) ==> before.insert(key, value)[other]
            == before[other],
{
}

} // verus!
