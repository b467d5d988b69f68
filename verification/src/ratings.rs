//! Ratings: reading an OMDb answer into (source, value) pairs, and deciding
//! whether a lookup produced something worth caching. Fetching is the
//! caller's part.

use vstd::prelude::*;
use crate::json::{json_views, lemma_json_views, member_spec, Json, JsonValue};
use crate::text::{chars_of, lowercase_of, str_eq, string_of_range, to_lowercase, trim_spec};

verus! {

/// `p` occurs in `s`.
pub open spec fn has_sub(s: Seq<char>, p: Seq<char>) -> bool {
    exists|i: int| 0 <= i && i + p.len() <= s.len() && #[trigger] s.subrange(i, i + p.len()) == p
}

/// Whether `p` occurs in `s`.
pub fn contains_str(s: &str, p: &str) -> (b: bool)
    ensures
        b == has_sub(s@, p@),
{
    let a = chars_of(s);
    let q = chars_of(p);
    if q.len() > a.len() {
        return false;
    }
    let mut i: usize = 0;
    while i <= a.len() - q.len()
        invariant
            a@ == s@,
            q@ == p@,
            q@.len() <= a@.len(),
            i <= a@.len() - q@.len() + 1,
            forall|k: int| 0 <= k < i ==> #[trigger] a@.subrange(k, k + q@.len()) != q@,
        decreases a.len() - i,
    {
        let mut j: usize = 0;
        while j < q.len() && a[i + j] == q[j]
            invariant
                a@.len() == a.len(),
                q@.len() == q.len(),
                i + q.len() <= a.len(),
                j <= q.len(),
                forall|m: int| 0 <= m < j ==> a@[i + m] == q@[m],
            decreases q.len() - j,
        {
            j += 1;
        }
        if j == q.len() {
            assert(a@.subrange(i as int, i + q@.len()) =~= q@);
            return true;
        }
        assert(a@.subrange(i as int, i + q@.len())[j as int] != q@[j as int]);
        i += 1;
    }
    false
}

/// `s` with every trailing repetition of `p` removed
/// (`str::trim_end_matches`).
pub open spec fn trim_end_all(s: Seq<char>, p: Seq<char>) -> Seq<char>
    decreases s.len(),
{
    if p.len() > 0 && p.len() <= s.len() && s.subrange(s.len() - p.len(), s.len() as int) == p {
        trim_end_all(s.subrange(0, s.len() - p.len()), p)
    } else {
        s
    }
}

/// `str::trim_end_matches(p)` for a non-empty `p`.
pub fn trim_end_matches(s: &str, p: &str) -> (r: String)
    requires
        p@.len() > 0,
    ensures
        r@ == trim_end_all(s@, p@),
{
    let a = chars_of(s);
    let q = chars_of(p);
    let mut end: usize = a.len();
    proof {
        assert(a@.subrange(0, end as int) =~= a@);
    }
    loop
        invariant
            a@ == s@,
            q@ == p@,
            q@.len() > 0,
            end <= a@.len(),
            trim_end_all(s@, p@) == trim_end_all(a@.subrange(0, end as int), p@),
        decreases end,
    {
        let ghost t = a@.subrange(0, end as int);
        if q.len() > end {
            return string_of_range(&a, 0, end);
        }
        let start = end - q.len();
        let mut j: usize = 0;
        while j < q.len() && a[start + j] == q[j]
            invariant
                start + q@.len() == end,
                end <= a@.len(),
                j <= q@.len(),
                forall|m: int| 0 <= m < j ==> a@[start + m] == q@[m],
            decreases q.len() - j,
        {
            j += 1;
        }
        if j < q.len() {
            proof {
                assert(t.subrange(t.len() - q@.len(), t.len() as int)[j as int] == a@[start + j]);
            }
            return string_of_range(&a, 0, end);
        }
        proof {
            assert(t.subrange(t.len() - q@.len(), t.len() as int) =~= q@);
            assert(t.subrange(0, t.len() - q@.len()) =~= a@.subrange(0, start as int));
        }
        end = start;
    }
}

/// What OMDb said about an IMDb id.
pub enum OmdbOutcome {
    /// (source, value) pairs: "imdb", "rotten_tomatoes", "metacritic".
    Found(Vec<(String, String)>),
    /// OMDb has no entry for this id: an answer, not an error.
    NotFound,
}

/// A rating value worth keeping: not empty, not "N/A".
pub open spec fn usable(v: Seq<char>) -> bool {
    v.len() > 0 && v != "N/A"@
}

/// A member read as a string, empty when absent or not a string.
pub open spec fn str_member(v: Json, key: Seq<char>) -> Seq<char> {
    match member_spec(v, key) {
        Some(Json::Str(s)) => s,
        _ => Seq::empty(),
    }
}

/// The pair one entry of OMDb's `Ratings` list gives, if any.
pub open spec fn rating_entry(r: Json) -> Option<(Seq<char>, Seq<char>)> {
    let source = str_member(r, "Source"@);
    let value = str_member(r, "Value"@);
    if !usable(value) {
        None
    } else if source == "Rotten Tomatoes"@ {
        Some(("rotten_tomatoes"@, value))
    } else if source == "Metacritic"@ {
        Some(("metacritic"@, trim_end_all(value, "/100"@)))
    } else {
        None
    }
}

/// The pairs of `items[..n]`, in order.
pub open spec fn rating_entries(items: Seq<Json>, n: int) -> Seq<(Seq<char>, Seq<char>)>
    decreases n,
{
    if n <= 0 {
        Seq::empty()
    } else {
        let rest = rating_entries(items, n - 1);
        match rating_entry(items[n - 1]) {
            Some(p) => rest.push(p),
            None => rest,
        }
    }
}

/// The pairs an OMDb answer gives: its IMDb rating first, then the Rotten
/// Tomatoes and Metacritic entries of its `Ratings` list.
pub open spec fn omdb_pairs(body: Json) -> Seq<(Seq<char>, Seq<char>)> {
    let imdb: Seq<(Seq<char>, Seq<char>)> = match member_spec(body, "imdbRating"@) {
        Some(Json::Str(r)) => if usable(r) {
            seq![("imdb"@, r)]
        } else {
            Seq::empty()
        },
        _ => Seq::empty(),
    };
    match member_spec(body, "Ratings"@) {
        Some(Json::Array(items)) => imdb + rating_entries(items, items.len() as int),
        _ => imdb,
    }
}

/// How an OMDb answer reads: an `Error` member mentioning the request
/// limit or the API key is a failure to report, any other `Error` means
/// the id is unknown, else the ratings it lists.
pub open spec fn omdb_verdict(body: Json) -> Result<Option<Seq<(Seq<char>, Seq<char>)>>, Seq<char>> {
    match member_spec(body, "Error"@) {
        Some(Json::Str(e)) => {
            let lower = lowercase_of(e);
            if has_sub(lower, "limit"@) {
                Err("OMDB daily request limit reached \u{2014} try again tomorrow."@)
            } else if has_sub(lower, "api key"@) {
                Err("OMDB rejected the API key \u{2014} check Settings."@)
            } else {
                Ok(None)
            }
        },
        _ => Ok(Some(omdb_pairs(body))),
    }
}

pub open spec fn pair_views(v: Seq<(String, String)>) -> Seq<(Seq<char>, Seq<char>)> {
    v.map_values(|p: (String, String)| (p.0@, p.1@))
}

fn push_pair(out: &mut Vec<(String, String)>, a: &str, b: String)
    ensures
        pair_views(final(out)@) == pair_views(old(out)@).push((a@, b@)),
{
    let ghost before = out@;
    out.push((a.to_string(), b));
    proof {
        assert(pair_views(out@) =~= pair_views(before).push((a@, b@)));
    }
}

/// Read an OMDb answer (see `omdb_verdict`).
pub fn omdb_outcome(body: &JsonValue) -> (r: Result<OmdbOutcome, String>)
    ensures
        match omdb_verdict(body@) {
            Err(e) => r matches Err(x) && x@ == e,
            Ok(None) => r matches Ok(OmdbOutcome::NotFound),
            Ok(Some(pairs)) => r matches Ok(OmdbOutcome::Found(v)) && pair_views(v@) == pairs,
        },
{
    if let Some(err) = body.get("Error") {
        if let Some(e) = err.as_str() {
            let lower = to_lowercase(e);
            if contains_str(lower.as_str(), "limit") {
                return Err(String::from_str("OMDB daily request limit reached \u{2014} try again tomorrow."));
            }
            if contains_str(lower.as_str(), "api key") {
                return Err(String::from_str("OMDB rejected the API key \u{2014} check Settings."));
            }
            return Ok(OmdbOutcome::NotFound);
        }
    }
    let mut out: Vec<(String, String)> = Vec::new();
    if let Some(v) = body.get("imdbRating") {
        if let Some(r) = v.as_str() {
            if r.unicode_len() > 0 && !str_eq(r, "N/A") {
                push_pair(&mut out, "imdb", r.to_string());
            }
        }
    }
    let ghost imdb = pair_views(out@);
    if let Some(v) = body.get("Ratings") {
        if let Some(items) = v.as_array() {
            let ghost views = json_views(items@);
            proof {
                lemma_json_views(items@);
                assert(imdb + rating_entries(views, 0) =~= imdb);
            }
            let mut i: usize = 0;
            while i < items.len()
                invariant
                    i <= items@.len(),
                    views == json_views(items@),
                    views.len() == items@.len(),
                    forall|k: int| 0 <= k < items@.len() ==> #[trigger] views[k] == items@[k]@,
                    pair_views(out@) == imdb + rating_entries(views, i as int),
                decreases items.len() - i,
            {
                let item = &items[i];
                let source = match item.get("Source") {
                    Some(x) => match x.as_str() {
                        Some(t) => t,
                        None => "",
                    },
                    None => "",
                };
                let value = match item.get("Value") {
                    Some(x) => match x.as_str() {
                        Some(t) => t,
                        None => "",
                    },
                    None => "",
                };
                proof {
                    reveal_strlit("");
                    assert(views[i as int] == item@);
                    assert(source@ == str_member(item@, "Source"@));
                    assert(value@ == str_member(item@, "Value"@));
                }
                let ghost before = pair_views(out@);
                if value.unicode_len() > 0 && !str_eq(value, "N/A") {
                    if str_eq(source, "Rotten Tomatoes") {
                        push_pair(&mut out, "rotten_tomatoes", value.to_string());
                    } else if str_eq(source, "Metacritic") {
                        proof {
                            reveal_strlit("/100");
                        }
                        let trimmed = trim_end_matches(value, "/100");
                        push_pair(&mut out, "metacritic", trimmed);
                    }
                }
                proof {
                    assert(imdb + rating_entries(views, i as int + 1) =~= match rating_entry(views[i as int]) {
                        Some(p) => (imdb + rating_entries(views, i as int)).push(p),
                        None => imdb + rating_entries(views, i as int),
                    });
                }
                i += 1;
            }
        }
    }
    Ok(OmdbOutcome::Found(out))
}

/// Each source once, its first value kept.
pub open spec fn first_per_source(pairs: Seq<(Seq<char>, Seq<char>)>, n: int) -> Seq<(Seq<char>, Seq<char>)>
    decreases n,
{
    if n <= 0 {
        Seq::empty()
    } else {
        let rest = first_per_source(pairs, n - 1);
        if exists|k: int| 0 <= k < rest.len() && (#[trigger] rest[k]).0 == pairs[n - 1].0 {
            rest
        } else {
            rest.push(pairs[n - 1])
        }
    }
}

/// Keep the first value of each source.
pub fn dedup_sources(pairs: Vec<(String, String)>) -> (r: Vec<(String, String)>)
    ensures
        pair_views(r@) == first_per_source(pair_views(pairs@), pairs@.len() as int),
{
    let ghost pv = pair_views(pairs@);
    let mut out: Vec<(String, String)> = Vec::new();
    let mut i: usize = 0;
    while i < pairs.len()
        invariant
            i <= pairs@.len(),
            pv == pair_views(pairs@),
            pair_views(out@) == first_per_source(pv, i as int),
        decreases pairs.len() - i,
    {
        let mut seen = false;
        let mut k: usize = 0;
        while k < out.len()
            invariant
                k <= out@.len(),
                i < pairs@.len(),
                seen == exists|m: int| 0 <= m < k && (#[trigger] out@[m]).0@ == pairs@[i as int].0@,
            decreases out.len() - k,
        {
            if str_eq(out[k].0.as_str(), pairs[i].0.as_str()) {
                seen = true;
            }
            k += 1;
        }
        let ghost before = out@;
        proof {
            let rest = first_per_source(pv, i as int);
            assert(pv[i as int] == (pairs@[i as int].0@, pairs@[i as int].1@));
            assert(seen == exists|m: int| 0 <= m < rest.len() && (#[trigger] rest[m]).0 == pv[i as int].0) by {
                if seen {
                    let m = choose|m: int| 0 <= m < k && (#[trigger] out@[m]).0@ == pairs@[i as int].0@;
                    assert(rest[m] == (out@[m].0@, out@[m].1@));
                }
                if exists|m: int| 0 <= m < rest.len() && (#[trigger] rest[m]).0 == pv[i as int].0 {
                    let m = choose|m: int| 0 <= m < rest.len() && (#[trigger] rest[m]).0 == pv[i as int].0;
                    assert(rest[m] == (out@[m].0@, out@[m].1@));
                }
            }
        }
        if !seen {
            out.push((pairs[i].0.clone(), pairs[i].1.clone()));
            proof {
                assert(pair_views(out@) =~= pair_views(before).push(pv[i as int]));
            }
        }
        i += 1;
    }
    out
}

/// Whether a lookup may replace the cached ratings: a confirmed OMDb answer
/// or anything found. Otherwise the error to report: without an IMDb id
/// the title has to be matched first.
pub fn ratings_verdict(omdb_confirmed: bool, found_any: bool, has_imdb: bool) -> (r: Result<(), String>)
    ensures
        omdb_confirmed || found_any ==> r == Ok::<(), String>(()),
        !omdb_confirmed && !found_any && !has_imdb ==> (r matches Err(e) && e@ == "No IMDb ID \u{2014} match to TMDB first."@),
        !omdb_confirmed && !found_any && has_imdb ==> (r matches Err(e) && e@ == "Ratings lookup failed."@),
{
    if !omdb_confirmed && !found_any {
        if !has_imdb {
            return Err(String::from_str("No IMDb ID \u{2014} match to TMDB first."));
        }
        return Err(String::from_str("Ratings lookup failed."));
    }
    Ok(())
}

/// An IMDb id is usable when it is not blank.
pub fn usable_imdb_id(id: &Option<String>) -> (b: bool)
    ensures
        b == match *id {
            Some(s) => trim_spec(s@).len() > 0,
            None => false,
        },
{
    match id {
        Some(s) => {
            let c = chars_of(s.as_str());
            let t = crate::text::trim_chars(&c);
            t.len() > 0
        },
        None => false,
    }
}

} // verus!
