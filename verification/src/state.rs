//! String-keyed maps of JSON values: the `globalState` and
//! `persistentState` scopes of an interactive title.
//!
//! A `StateMap` keeps its members in insertion order; when a key occurs more
//! than once (only possible through `from_entries`), the later member wins,
//! as it would when the members are inserted one after another.

use vstd::prelude::*;
use crate::json::{entry_views, lemma_entry_views, truthy_spec, Json, JsonValue};
use crate::text::str_eq;

verus! {

/// The map that inserting the members of `s` in order into an empty map gives.
pub open spec fn map_of(s: Seq<(Seq<char>, Json)>) -> Map<Seq<char>, Json>
    decreases s.len(),
{
    if s.len() == 0 {
        Map::empty()
    } else {
        map_of(s.drop_last()).insert(s.last().0, s.last().1)
    }
}

/// `k` occurs as a key in `s` at no index in `from..`.
pub open spec fn key_absent_from(s: Seq<(Seq<char>, Json)>, k: Seq<char>, from: int) -> bool {
    forall|i: int| from <= i < s.len() ==> #[trigger] s[i].0 != k
}

pub proof fn lemma_map_of_absent(s: Seq<(Seq<char>, Json)>, k: Seq<char>)
    ensures
        key_absent_from(s, k, 0) <==> !map_of(s).contains_key(k),
    decreases s.len(),
{
    if s.len() > 0 {
        lemma_map_of_absent(s.drop_last(), k);
        if key_absent_from(s, k, 0) {
            assert(key_absent_from(s.drop_last(), k, 0)) by {
                assert forall|i: int| 0 <= i < s.drop_last().len() implies #[trigger] s.drop_last()[i].0 != k by {
                    assert(s.drop_last()[i] == s[i]);
                }
            }
        } else {
            let i = choose|i: int| 0 <= i < s.len() && #[trigger] s[i].0 == k;
            if i < s.len() - 1 {
                assert(s.drop_last()[i] == s[i]);
            }
        }
    }
}

/// The last member with key `k` gives the value.
pub proof fn lemma_map_of_last(s: Seq<(Seq<char>, Json)>, j: int)
    requires
        0 <= j < s.len(),
        key_absent_from(s, s[j].0, j + 1),
    ensures
        map_of(s).contains_key(s[j].0),
        map_of(s)[s[j].0] == s[j].1,
    decreases s.len(),
{
    if j < s.len() - 1 {
        let t = s.drop_last();
        assert(t[j] == s[j]);
        assert forall|i: int| j + 1 <= i < t.len() implies #[trigger] t[i].0 != t[j].0 by {
            assert(t[i] == s[i]);
        }
        lemma_map_of_last(t, j);
        assert(s[s.len() - 1].0 != s[j].0);
    }
}

/// Replacing the value of the last member with key `k` inserts into the map.
pub proof fn lemma_map_of_update(s: Seq<(Seq<char>, Json)>, j: int, v: Json)
    requires
        0 <= j < s.len(),
        key_absent_from(s, s[j].0, j + 1),
    ensures
        map_of(s.update(j, (s[j].0, v))) == map_of(s).insert(s[j].0, v),
    decreases s.len(),
{
    let k = s[j].0;
    let u = s.update(j, (k, v));
    if j == s.len() - 1 {
        assert(u.drop_last() =~= s.drop_last());
        assert(map_of(u) =~= map_of(s).insert(k, v));
    } else {
        let t = s.drop_last();
        assert(t[j] == s[j]);
        assert forall|i: int| j + 1 <= i < t.len() implies #[trigger] t[i].0 != t[j].0 by {
            assert(t[i] == s[i]);
        }
        lemma_map_of_update(t, j, v);
        assert(u.drop_last() =~= t.update(j, (k, v)));
        assert(s.last().0 != k);
        assert(map_of(u) =~= map_of(s).insert(k, v));
    }
}

/// `m` with the members of `s` inserted in order.
pub open spec fn insert_all(m: Map<Seq<char>, Json>, s: Seq<(Seq<char>, Json)>) -> Map<Seq<char>, Json>
    decreases s.len(),
{
    if s.len() == 0 {
        m
    } else {
        insert_all(m, s.drop_last()).insert(s.last().0, s.last().1)
    }
}

/// Inserting the members of `s` in order into `m`, some insertion finds its
/// key missing or holding another value.
pub open spec fn any_change(m: Map<Seq<char>, Json>, s: Seq<(Seq<char>, Json)>) -> bool
    decreases s.len(),
{
    if s.len() == 0 {
        false
    } else {
        let cur = insert_all(m, s.drop_last());
        any_change(m, s.drop_last()) || !(cur.contains_key(s.last().0) && cur[s.last().0] == s.last().1)
    }
}

/// No key occurs twice in `s`.
pub open spec fn keys_unique(s: Seq<(Seq<char>, Json)>) -> bool {
    forall|i: int, j: int| 0 <= i < j < s.len() ==> #[trigger] s[i].0 != #[trigger] s[j].0
}

/// At a key that `s` carries, the base map does not matter; elsewhere the
/// base shows through.
pub proof fn lemma_insert_all_at(m1: Map<Seq<char>, Json>, m2: Map<Seq<char>, Json>, s: Seq<(Seq<char>, Json)>, k: Seq<char>)
    ensures
        !key_absent_from(s, k, 0) ==> insert_all(m1, s).contains_key(k) && insert_all(m2, s).contains_key(k)
            && insert_all(m1, s)[k] == insert_all(m2, s)[k],
        key_absent_from(s, k, 0) ==> insert_all(m1, s).contains_key(k) == m1.contains_key(k) && (m1.contains_key(k)
            ==> insert_all(m1, s)[k] == m1[k]),
    decreases s.len(),
{
    if s.len() > 0 {
        let t = s.drop_last();
        lemma_insert_all_at(m1, m2, t, k);
        if key_absent_from(s, k, 0) {
            assert(key_absent_from(t, k, 0)) by {
                assert forall|i: int| 0 <= i < t.len() implies #[trigger] t[i].0 != k by {
                    assert(t[i] == s[i]);
                }
            }
        } else if s.last().0 != k {
            let i = choose|i: int| 0 <= i < s.len() && #[trigger] s[i].0 == k;
            assert(t[i] == s[i]);
        }
    }
}

/// The value of the last member with a key is what `insert_all` leaves there.
pub proof fn lemma_insert_all_last(m: Map<Seq<char>, Json>, s: Seq<(Seq<char>, Json)>, j: int)
    requires
        0 <= j < s.len(),
        key_absent_from(s, s[j].0, j + 1),
    ensures
        insert_all(m, s).contains_key(s[j].0),
        insert_all(m, s)[s[j].0] == s[j].1,
    decreases s.len(),
{
    if j < s.len() - 1 {
        let t = s.drop_last();
        assert(t[j] == s[j]);
        assert forall|i: int| j + 1 <= i < t.len() implies #[trigger] t[i].0 != t[j].0 by {
            assert(t[i] == s[i]);
        }
        lemma_insert_all_last(m, t, j);
        assert(s[s.len() - 1].0 != s[j].0);
    }
}

/// Inserting the same members twice leaves what inserting them once left.
pub proof fn lemma_insert_all_twice(m: Map<Seq<char>, Json>, s: Seq<(Seq<char>, Json)>)
    ensures
        insert_all(insert_all(m, s), s) == insert_all(m, s),
{
    let once = insert_all(m, s);
    assert forall|k: Seq<char>| #[trigger] insert_all(once, s).contains_key(k) == once.contains_key(k) && (once.contains_key(k) ==> insert_all(once, s)[k] == once[k]) by {
        lemma_insert_all_at(once, m, s, k);
    }
    assert(insert_all(once, s) =~= once);
}

/// With no key twice, inserting members that are already there changes nothing.
pub proof fn lemma_no_change_again(m: Map<Seq<char>, Json>, s: Seq<(Seq<char>, Json)>, n: int)
    requires
        keys_unique(s),
        0 <= n <= s.len(),
    ensures
        !any_change(insert_all(m, s), s.take(n)),
    decreases n,
{
    if n > 0 {
        let once = insert_all(m, s);
        lemma_no_change_again(m, s, n - 1);
        let t = s.take(n);
        assert(t.drop_last() =~= s.take(n - 1));
        let x = s[n - 1];
        assert(t.last() == x);
        assert(key_absent_from(s.take(n - 1), x.0, 0)) by {
            assert forall|i: int| 0 <= i < s.take(n - 1).len() implies #[trigger] s.take(n - 1)[i].0 != x.0 by {
                assert(s.take(n - 1)[i] == s[i]);
            }
        }
        lemma_insert_all_at(once, once, s.take(n - 1), x.0);
        assert(key_absent_from(s, x.0, n)) by {
            assert forall|i: int| n <= i < s.len() implies #[trigger] s[i].0 != x.0 by {
                assert(s[n - 1].0 != s[i].0);
            }
        }
        lemma_insert_all_last(m, s, n - 1);
    }
}

/// A map from strings to JSON values.
pub struct StateMap {
    entries: Vec<(String, JsonValue)>,
}

impl View for StateMap {
    type V = Map<Seq<char>, Json>;

    closed spec fn view(&self) -> Map<Seq<char>, Json> {
        map_of(entry_views(self.entries@))
    }
}

impl StateMap {
    /// The empty map.
    pub fn new() -> (m: StateMap)
        ensures
            m@ == Map::<Seq<char>, Json>::empty(),
    {
        let m = StateMap { entries: Vec::new() };
        assert(entry_views(m.entries@) =~= Seq::empty());
        m
    }

    /// The map that inserting `entries` in order gives.
    pub fn from_entries(entries: Vec<(String, JsonValue)>) -> (m: StateMap)
        ensures
            m@ == map_of(entry_views(entries@)),
    {
        StateMap { entries }
    }

    /// The members, in insertion order; inserting them in order into an
    /// empty map gives this map.
    pub fn entries(&self) -> (r: &[(String, JsonValue)])
        ensures
            map_of(entry_views(r@)) == self@,
    {
        self.entries.as_slice()
    }

    /// Index of the last member with key `key`.
    fn find_last(&self, key: &str) -> (r: Option<usize>)
        ensures
            match r {
                Some(j) => {
                    &&& j < self.entries@.len()
                    &&& entry_views(self.entries@)[j as int].0 == key@
                    &&& key_absent_from(entry_views(self.entries@), key@, j + 1)
                },
                None => key_absent_from(entry_views(self.entries@), key@, 0),
            },
    {
        proof {
            lemma_entry_views(self.entries@);
        }
        let mut i: usize = self.entries.len();
        while i > 0
            invariant
                i <= self.entries@.len(),
                entry_views(self.entries@).len() == self.entries@.len(),
                forall|k: int|
                    0 <= k < self.entries@.len() ==> #[trigger] entry_views(self.entries@)[k] == (
                    self.entries@[k].0@, self.entries@[k].1@),
                key_absent_from(entry_views(self.entries@), key@, i as int),
            decreases i,
        {
            i -= 1;
            if str_eq(self.entries[i].0.as_str(), key) {
                return Some(i);
            }
        }
        None
    }

    /// The value under `key`.
    pub fn get(&self, key: &str) -> (r: Option<&JsonValue>)
        ensures
            match r {
                Some(v) => self@.contains_key(key@) && self@[key@] == v@,
                None => !self@.contains_key(key@),
            },
    {
        proof {
            lemma_entry_views(self.entries@);
            lemma_map_of_absent(entry_views(self.entries@), key@);
        }
        match self.find_last(key) {
            Some(j) => {
                proof {
                    lemma_map_of_last(entry_views(self.entries@), j as int);
                }
                Some(&self.entries[j].1)
            },
            None => None,
        }
    }

    /// Set `key` to `value`.
    pub fn insert(&mut self, key: String, value: JsonValue)
        ensures
            final(self)@ == old(self)@.insert(key@, value@),
    {
        proof {
            lemma_entry_views(self.entries@);
        }
        match self.find_last(key.as_str()) {
            Some(j) => {
                let ghost before = entry_views(self.entries@);
                let ghost kv = key@;
                let ghost vv = value@;
                self.entries.set(j, (key, value));
                proof {
                    lemma_entry_views(self.entries@);
                    lemma_map_of_update(before, j as int, vv);
                    assert(entry_views(self.entries@) =~= before.update(j as int, (kv, vv)));
                    assert(kv == key@);
                }
            },
            None => {
                let ghost before = self.entries@;
                self.entries.push((key, value));
                proof {
                    assert(self.entries@.drop_last() =~= before);
                    let ev = entry_views(self.entries@);
                    assert(ev.drop_last() =~= entry_views(before));
                    assert(ev.last() == (key@, value@));
                    assert(map_of(ev) == map_of(entry_views(before)).insert(key@, value@));
                }
            },
        }
    }

    /// A copy with the same view.
    pub fn deep_copy(&self) -> (r: StateMap)
        ensures
            r@ == self@,
    {
        let mut out: Vec<(String, JsonValue)> = Vec::new();
        let mut i: usize = 0;
        while i < self.entries.len()
            invariant
                i <= self.entries@.len(),
                entry_views(out@) == entry_views(self.entries@.take(i as int)),
            decreases self.entries.len() - i,
        {
            let k = self.entries[i].0.clone();
            let v = self.entries[i].1.deep_copy();
            proof {
                assert(self.entries@.take(i + 1).drop_last() =~= self.entries@.take(i as int));
            }
            let ghost prev = out@;
            out.push((k, v));
            proof {
                assert(out@.drop_last() =~= prev);
            }
            i += 1;
        }
        proof {
            assert(self.entries@.take(self.entries@.len() as int) =~= self.entries@);
        }
        StateMap { entries: out }
    }
}

/// The keys of `m` whose value is truthy.
pub open spec fn truthy_keys(m: Map<Seq<char>, Json>) -> Set<Seq<char>> {
    m.dom().filter(|k: Seq<char>| truthy_spec(m[k]))
}

fn index_of_key(keys: &Vec<String>, k: &str) -> (r: Option<usize>)
    ensures
        match r {
            Some(i) => i < keys@.len() && keys@[i as int]@ == k@,
            None => forall|i: int| 0 <= i < keys@.len() ==> #[trigger] keys@[i]@ != k@,
        },
{
    let mut i: usize = 0;
    while i < keys.len()
        invariant
            i <= keys@.len(),
            forall|j: int| 0 <= j < i ==> #[trigger] keys@[j]@ != k@,
        decreases keys.len() - i,
    {
        if str_eq(keys[i].as_str(), k) {
            return Some(i);
        }
        i += 1;
    }
    None
}

impl StateMap {
    /// How many keys hold a truthy value.
    pub fn truthy_count(&self) -> (n: usize)
        ensures
            n == truthy_keys(self@).len(),
    {
        let mut keys: Vec<String> = Vec::new();
        let ghost views = entry_views(self.entries@);
        proof {
            lemma_entry_views(self.entries@);
            assert(keys@.map_values(|s: String| s@).to_set() =~= truthy_keys(map_of(views.take(0))));
        }
        let mut i: usize = 0;
        while i < self.entries.len()
            invariant
                i <= self.entries@.len(),
                views == entry_views(self.entries@),
                views.len() == self.entries@.len(),
                forall|k: int| 0 <= k < self.entries@.len() ==> #[trigger] views[k] == (self.entries@[k].0@, self.entries@[k].1@),
                keys@.map_values(|s: String| s@).no_duplicates(),
                keys@.map_values(|s: String| s@).to_set() == truthy_keys(map_of(views.take(i as int))),
            decreases self.entries.len() - i,
        {
            let t = self.entries[i].1.truthy();
            let at = index_of_key(&keys, self.entries[i].0.as_str());
            let ghost before = keys@.map_values(|s: String| s@);
            let ghost k = views[i as int].0;
            let ghost m0 = map_of(views.take(i as int));
            proof {
                assert(views.take(i + 1).drop_last() =~= views.take(i as int));
                assert(map_of(views.take(i + 1)) == m0.insert(k, views[i as int].1));
            }
            if t {
                if at.is_none() {
                    keys.push(self.entries[i].0.clone());
                    proof {
                        let after = keys@.map_values(|s: String| s@);
                        assert(after =~= before.push(k));
                        assert forall|a: int, b: int| 0 <= a < after.len() && 0 <= b < after.len() && a != b implies after[a] != after[b] by {
                            if a < before.len() && b < before.len() {
                                assert(after[a] == before[a] && after[b] == before[b]);
                            } else if a == before.len() {
                                assert(after[b] == before[b]);
                                assert(keys@[b]@ == before[b]);
                            } else {
                                assert(after[a] == before[a]);
                                assert(keys@[a]@ == before[a]);
                            }
                        }
                    }
                }
            } else {
                if let Some(j) = at {
                    keys.remove(j);
                    proof {
                        let after = keys@.map_values(|s: String| s@);
                        assert(after =~= before.remove(j as int));
                        assert forall|a: int, b: int| 0 <= a < after.len() && 0 <= b < after.len() && a != b implies after[a] != after[b] by {
                            let a2 = if a < j { a } else { a + 1 };
                            let b2 = if b < j { b } else { b + 1 };
                            assert(after[a] == before[a2] && after[b] == before[b2]);
                        }
                        assert forall|x: Seq<char>| after.contains(x) implies x != k by {
                            let a = choose|a: int| 0 <= a < after.len() && after[a] == x;
                            let a2 = if a < j { a } else { a + 1 };
                            assert(after[a] == before[a2]);
                            assert(before[j as int] == k);
                        }
                    }
                }
            }
            proof {
                let after = keys@.map_values(|s: String| s@);
                let m1 = map_of(views.take(i + 1));
                assert forall|x: Seq<char>| after.to_set().contains(x) == truthy_keys(m1).contains(x) by {
                    assert(truthy_keys(m1).contains(x) == (m1.dom().contains(x) && truthy_spec(m1[x])));
                    assert(truthy_keys(m0).contains(x) == (m0.dom().contains(x) && truthy_spec(m0[x])));
                    assert(before.to_set().contains(x) == before.contains(x));
                    assert(after.to_set().contains(x) == after.contains(x));
                    assert(t == truthy_spec(views[i as int].1));
                    if x == k {
                        if t {
                            if at is None {
                                assert(after[after.len() - 1] == k);
                            } else {
                                assert(before[at->0 as int] == k);
                                assert(after == before);
                            }
                        } else {
                            if at is None {
                                assert(after == before);
                                if after.contains(x) {
                                    let a = choose|a: int| 0 <= a < after.len() && after[a] == x;
                                    assert(keys@[a]@ == x);
                                }
                            }
                        }
                    } else {
                        if t && at is None {
                            if after.contains(x) {
                                let a = choose|a: int| 0 <= a < after.len() && after[a] == x;
                                assert(a < before.len());
                                assert(before[a] == x);
                            }
                            if before.contains(x) {
                                let a = choose|a: int| 0 <= a < before.len() && before[a] == x;
                                assert(after[a] == x);
                            }
                        } else if !t && at is Some {
                            let j = at->0 as int;
                            if after.contains(x) {
                                let a = choose|a: int| 0 <= a < after.len() && after[a] == x;
                                let a2 = if a < j { a } else { a + 1 };
                                assert(before[a2] == x);
                            }
                            if before.contains(x) {
                                let a = choose|a: int| 0 <= a < before.len() && before[a] == x;
                                assert(a != j);
                                let a2 = if a < j { a } else { a - 1 };
                                assert(after[a2] == x);
                            }
                        } else {
                            assert(after == before);
                        }
                    }
                }
                assert(after.to_set() =~= truthy_keys(m1));
            }
            i += 1;
        }
        proof {
            assert(views.take(self.entries@.len() as int) =~= views);
            keys@.map_values(|s: String| s@).unique_seq_to_set();
        }
        keys.len()
    }
}

} // verus!
