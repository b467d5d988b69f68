//! Lists of `(key, value)` pairs looked up by string key: the maps of the
//! interactive-title files, as they are read (no key twice). A lookup finds
//! the first member with the key.

use vstd::prelude::*;
use crate::text::str_eq;

verus! {

/// Index of the first member of `s` from `i` on whose key is `k`.
pub open spec fn first_key_from<T>(s: Seq<(String, T)>, k: Seq<char>, i: int) -> Option<int>
    decreases s.len() - i,
{
    if i < 0 || i >= s.len() {
        None
    } else if s[i].0@ == k {
        Some(i)
    } else {
        first_key_from(s, k, i + 1)
    }
}

/// Index of the first member of `s` whose key is `k`.
pub open spec fn find_key<T>(s: Seq<(String, T)>, k: Seq<char>) -> Option<int> {
    first_key_from(s, k, 0)
}

/// `s` has a member with key `k`.
pub open spec fn has_key<T>(s: Seq<(String, T)>, k: Seq<char>) -> bool {
    find_key(s, k) is Some
}

pub proof fn lemma_first_key_from<T>(s: Seq<(String, T)>, k: Seq<char>, i: int)
    requires
        0 <= i,
    ensures
        match first_key_from(s, k, i) {
            Some(j) => i <= j < s.len() && s[j].0@ == k && forall|m: int| i <= m < j ==> #[trigger] s[m].0@ != k,
            None => forall|m: int| i <= m < s.len() ==> #[trigger] s[m].0@ != k,
        },
    decreases s.len() - i,
{
    if i < s.len() && s[i].0@ != k {
        lemma_first_key_from(s, k, i + 1);
    }
}

/// `s` has a member with key `k` exactly when some member's key is `k`.
pub proof fn lemma_has_key<T>(s: Seq<(String, T)>, k: Seq<char>)
    ensures
        has_key(s, k) <==> exists|m: int| 0 <= m < s.len() && #[trigger] s[m].0@ == k,
        match find_key(s, k) {
            Some(j) => 0 <= j < s.len() && s[j].0@ == k,
            None => true,
        },
{
    lemma_first_key_from(s, k, 0);
    if let Some(j) = find_key(s, k) {
        assert(s[j].0@ == k);
    }
}

/// Index of the first member of `s` whose key is `k`.
pub fn key_index<T>(s: &[(String, T)], k: &str) -> (r: Option<usize>)
    ensures
        match r {
            Some(i) => find_key(s@, k@) == Some(i as int),
            None => find_key(s@, k@) is None,
        },
{
    let mut i: usize = 0;
    while i < s.len()
        invariant
            i <= s@.len(),
            find_key(s@, k@) == first_key_from(s@, k@, i as int),
        decreases s.len() - i,
    {
        if str_eq(s[i].0.as_str(), k) {
            return Some(i);
        }
        i += 1;
    }
    None
}

/// The value of the first member with key `k`.
pub fn lookup<'a, T>(s: &'a [(String, T)], k: &str) -> (r: Option<&'a T>)
    ensures
        match find_key(s@, k@) {
            Some(i) => r == Some(&s@[i].1),
            None => r is None,
        },
{
    proof {
        lemma_first_key_from(s@, k@, 0);
    }
    match key_index(s, k) {
        Some(i) => Some(&s[i].1),
        None => None,
    }
}

/// `s` has a member with key `k`.
pub fn contains_key<T>(s: &[(String, T)], k: &str) -> (b: bool)
    ensures
        b == has_key(s@, k@),
{
    key_index(s, k).is_some()
}

} // verus!
