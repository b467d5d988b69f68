//! Credit text: character-role captions, title normalisation for fuzzy
//! matching, and the per-role "works" query bodies.

use vstd::prelude::*;
use crate::text::{
    chars_of, is_white, lowercase_of, push_char, push_chars, push_decimal, push_str, string_of,
    to_lowercase, trim_chars, trim_spec, decimal,
};

verus! {

// ---------------------------------------------------------------------------
// "(voice)" markers
// ---------------------------------------------------------------------------

/// `str::replace(p, "")`: every non-overlapping occurrence of `p`, scanning
/// left to right, removed.
pub open spec fn remove_all(s: Seq<char>, p: Seq<char>) -> Seq<char>
    recommends
        p.len() > 0,
    decreases s.len(),
{
    if p.len() == 0 || s.len() < p.len() {
        s
    } else if s.take(p.len() as int) == p {
        remove_all(s.skip(p.len() as int), p)
    } else {
        seq![s[0]] + remove_all(s.skip(1), p)
    }
}

/// Runs of spaces squeezed to one space.
pub open spec fn squeeze_spaces(s: Seq<char>) -> Seq<char>
    decreases s.len(),
{
    if s.len() == 0 {
        s
    } else if s.last() == ' ' && s.len() >= 2 && s[s.len() - 2] == ' ' {
        squeeze_spaces(s.drop_last())
    } else {
        squeeze_spaces(s.drop_last()).push(s.last())
    }
}

/// Trailing `/` characters removed.
pub open spec fn trim_end_slashes(s: Seq<char>) -> Seq<char>
    decreases s.len(),
{
    if s.len() > 0 && s.last() == '/' {
        trim_end_slashes(s.drop_last())
    } else {
        s
    }
}

/// A role with "(voice)"/"(Voice)" markers removed and whitespace tidied.
pub open spec fn strip_voice_spec(role: Seq<char>) -> Seq<char> {
    let a = remove_all(remove_all(role, "(voice)"@), "(Voice)"@);
    trim_spec(trim_end_slashes(trim_spec(squeeze_spaces(a))))
}

fn matches_at(s: &[char], i: usize, p: &[char]) -> (b: bool)
    requires
        i <= s@.len(),
    ensures
        b == (p@.len() <= s@.len() - i && s@.skip(i as int).take(p@.len() as int) == p@),
{
    if p.len() > s.len() - i {
        return false;
    }
    let mut k: usize = 0;
    while k < p.len()
        invariant
            i + p@.len() <= s@.len(),
            i <= s@.len(),
            p@.len() <= s@.len() - i,
            k <= p@.len(),
            forall|j: int| 0 <= j < k ==> s@[i + j] == p@[j],
        decreases p.len() - k,
    {
        assert(k < p@.len());
        let n = s.len();
        assert(i + k < n);
        if s[i + k] != p[k] {
            assert(s@.skip(i as int).take(p@.len() as int)[k as int] == s@[i + k]);
            return false;
        }
        k += 1;
    }
    assert(s@.skip(i as int).take(p@.len() as int) =~= p@);
    true
}

/// `str::replace(p, "")` on characters.
pub fn remove_all_exec(s: &[char], p: &[char]) -> (r: Vec<char>)
    requires
        p@.len() > 0,
    ensures
        r@ == remove_all(s@, p@),
{
    let mut out: Vec<char> = Vec::new();
    let mut i: usize = 0;
    assert(s@.skip(0) =~= s@);
    assert(out@ + s@ =~= s@);
    while i < s.len()
        invariant
            i <= s@.len(),
            p@.len() > 0,
            remove_all(s@, p@) == out@ + remove_all(s@.skip(i as int), p@),
        decreases s.len() - i,
    {
        let ghost rest = s@.skip(i as int);
        if matches_at(s, i, p) {
            assert(rest.skip(p@.len() as int) =~= s@.skip(i + p@.len()));
            i += p.len();
        } else {
            proof {
                if rest.len() >= p@.len() {
                    assert(rest.skip(1) =~= s@.skip(i + 1));
                } else {
                    assert(remove_all(rest, p@) == rest);
                    let tail = s@.skip(i + 1);
                    lemma_remove_short(tail, p@);
                    assert(rest =~= seq![rest[0]] + tail);
                }
            }
            out.push(s[i]);
            i += 1;
        }
    }
    assert(s@.skip(i as int) =~= Seq::<char>::empty());
    assert(out@ + Seq::<char>::empty() =~= out@);
    out
}

proof fn lemma_remove_short(s: Seq<char>, p: Seq<char>)
    requires
        s.len() < p.len(),
    ensures
        remove_all(s, p) == s,
{
}

/// `role` without "(voice)" / "(Voice)", double spaces squeezed, trimmed,
/// and trailing slashes dropped.
pub fn strip_voice_marker(role: &str) -> (r: String)
    ensures
        r@ == strip_voice_spec(role@),
{
    let c = chars_of(role);
    let v1 = chars_of("(voice)");
    let v2 = chars_of("(Voice)");
    proof {
        reveal_strlit("(voice)");
        reveal_strlit("(Voice)");
    }
    let a = remove_all_exec(&c, &v1);
    let b = remove_all_exec(&a, &v2);
    let mut sq: Vec<char> = Vec::new();
    let mut prev_space = false;
    let mut i: usize = 0;
    while i < b.len()
        invariant
            i <= b@.len(),
            sq@ == squeeze_spaces(b@.take(i as int)),
            prev_space == (i > 0 && b@[i - 1] == ' '),
        decreases b.len() - i,
    {
        let ch = b[i];
        let is_space = ch == ' ';
        proof {
            let t = b@.take(i + 1);
            assert(t.drop_last() =~= b@.take(i as int));
            if i > 0 {
                assert(t[t.len() - 2] == b@[i - 1]);
            }
        }
        if !(is_space && prev_space) {
            sq.push(ch);
        }
        prev_space = is_space;
        i += 1;
    }
    assert(b@.take(b@.len() as int) =~= b@);
    let t1 = trim_chars(&sq);
    let mut e = t1.len();
    assert(t1@.take(e as int) =~= t1@);
    while e > 0 && t1[e - 1] == '/'
        invariant
            e <= t1@.len(),
            trim_end_slashes(t1@) == trim_end_slashes(t1@.take(e as int)),
        decreases e,
    {
        proof {
            assert(t1@.take(e as int).drop_last() =~= t1@.take(e - 1));
        }
        e -= 1;
    }
    proof {
        if e == t1@.len() {
            assert(t1@.take(e as int) =~= t1@);
        }
    }
    let mut t2: Vec<char> = Vec::new();
    let mut k: usize = 0;
    while k < e
        invariant
            e <= t1@.len(),
            k <= e,
            t2@ == t1@.take(k as int),
        decreases e - k,
    {
        t2.push(t1[k]);
        k += 1;
        assert(t2@ =~= t1@.take(k as int));
    }
    let t3 = trim_chars(&t2);
    string_of(&t3)
}

// ---------------------------------------------------------------------------
// Role captions
// ---------------------------------------------------------------------------

/// "as X" / "as X & Y" / "as X, Y, & Z"; past three roles the first two are
/// listed and the rest counted: "voices X, Y, & 14 more characters".
pub open spec fn role_list_spec(prefix: Seq<char>, roles: Seq<Seq<char>>) -> Option<Seq<char>> {
    let n = roles.len();
    if n == 0 {
        None
    } else {
        let joined = if n == 1 {
            roles[0]
        } else if n == 2 {
            roles[0] + " & "@ + roles[1]
        } else if n == 3 {
            roles[0] + ", "@ + roles[1] + ", & "@ + roles[2]
        } else {
            roles[0] + ", "@ + roles[1] + ", & "@ + decimal((n - 2) as nat) + " more characters"@
        };
        Some(prefix + " "@ + joined)
    }
}

/// Caption for a person's character(s) in a title.
pub fn format_role_list(prefix: &str, roles: &[String]) -> (r: Option<String>)
    ensures
        match r {
            Some(s) => role_list_spec(prefix@, roles@.map_values(|x: String| x@)) == Some(s@),
            None => role_list_spec(prefix@, roles@.map_values(|x: String| x@)) is None,
        },
{
    let ghost views = roles@.map_values(|x: String| x@);
    if roles.len() == 0 {
        return None;
    }
    let mut out = String::new();
    push_str(&mut out, prefix);
    push_str(&mut out, " ");
    assert(views[0] == roles@[0]@);
    if roles.len() == 1 {
        push_str(&mut out, roles[0].as_str());
    } else if roles.len() == 2 {
        assert(views[1] == roles@[1]@);
        push_str(&mut out, roles[0].as_str());
        push_str(&mut out, " & ");
        push_str(&mut out, roles[1].as_str());
    } else if roles.len() == 3 {
        assert(views[1] == roles@[1]@);
        assert(views[2] == roles@[2]@);
        push_str(&mut out, roles[0].as_str());
        push_str(&mut out, ", ");
        push_str(&mut out, roles[1].as_str());
        push_str(&mut out, ", & ");
        push_str(&mut out, roles[2].as_str());
    } else {
        assert(views[1] == roles@[1]@);
        push_str(&mut out, roles[0].as_str());
        push_str(&mut out, ", ");
        push_str(&mut out, roles[1].as_str());
        push_str(&mut out, ", & ");
        push_decimal(&mut out, (roles.len() - 2) as u64);
        push_str(&mut out, " more characters");
    }
    proof {
        let s = role_list_spec(prefix@, views)->0;
        assert(out@ =~= s);
    }
    Some(out)
}

// ---------------------------------------------------------------------------
// Fuzzy title matching
// ---------------------------------------------------------------------------

/// What `char::is_alphanumeric` returns (Unicode Alphabetic or Numeric).
pub uninterp spec fn alphanumeric(c: char) -> bool;

/// `char::is_alphanumeric`. Claimed: the result is `alphanumeric(c)`.
#[verifier::external_body]
pub(crate) fn is_alphanumeric(c: char) -> (b: bool)
    ensures
        b == alphanumeric(c),
{
    c.is_alphanumeric()
}

/// `split_whitespace().join(" ")` over the first `i` characters: the
/// normalized text so far, and whether a separator is owed before the next
/// word.
pub open spec fn words_upto(s: Seq<char>, i: int) -> (Seq<char>, bool)
    decreases i,
{
    if i <= 0 {
        (Seq::empty(), false)
    } else {
        let (o, pending) = words_upto(s, i - 1);
        let c = s[i - 1];
        if is_white(c) {
            (o, o.len() > 0)
        } else if pending {
            (o.push(' ').push(c), false)
        } else {
            (o.push(c), false)
        }
    }
}

/// The words of `s` (maximal runs without Unicode whitespace) joined by
/// single spaces.
pub open spec fn join_words(s: Seq<char>) -> Seq<char> {
    words_upto(s, s.len() as int).0
}

/// Lowercase, everything but letters and digits turned into spaces,
/// whitespace runs collapsed and the ends trimmed.
pub open spec fn norm_title_spec(s: Seq<char>) -> Seq<char> {
    let l = lowercase_of(s);
    join_words(Seq::new(l.len(), |i: int| if alphanumeric(l[i]) { l[i] } else { ' ' }))
}

/// Normalize a title for fuzzy episode matching.
pub fn norm_match_title(s: &str) -> (r: String)
    ensures
        r@ == norm_title_spec(s@),
{
    let lower = to_lowercase(s);
    let l = chars_of(lower.as_str());
    let ghost mapped = Seq::new(l@.len(), |i: int| if alphanumeric(l@[i]) { l@[i] } else { ' ' });
    let mut out = String::new();
    let mut pending = false;
    let mut i: usize = 0;
    while i < l.len()
        invariant
            i <= l@.len(),
            mapped == Seq::new(l@.len(), |i: int| if alphanumeric(l@[i]) { l@[i] } else { ' ' }),
            (out@, pending) == words_upto(mapped, i as int),
        decreases l.len() - i,
    {
        let c0 = l[i];
        let c = if is_alphanumeric(c0) {
            c0
        } else {
            ' '
        };
        assert(mapped[i as int] == c);
        if crate::text::is_whitespace(c) {
            pending = out.unicode_len() > 0;
        } else {
            if pending {
                push_char(&mut out, ' ');
            }
            push_char(&mut out, c);
            pending = false;
        }
        i += 1;
    }
    out
}

// ---------------------------------------------------------------------------
// Role query bodies
// ---------------------------------------------------------------------------

/// Person → (kind, work) pairs credited as actor (movie, show, season and
/// episode cast).
pub const ACTOR_WORKS: &'static str = "SELECT person_id, 'movie' AS kind, movie_id AS eid FROM movie_cast \
     UNION SELECT person_id, 'show', show_id FROM show_cast \
     UNION SELECT sec.person_id, 'show', ss.show_id \
             FROM season_cast sec JOIN season ss ON sec.season_id = ss.id \
     UNION SELECT ec.person_id, 'show', ss.show_id \
             FROM episode_cast ec \
             JOIN episode e ON ec.episode_id = e.id \
             JOIN season ss ON e.season_id = ss.id";

/// … as director or creator.
pub const DIRECTOR_CREATOR_WORKS: &'static str = "SELECT person_id, 'movie' AS kind, movie_id AS eid FROM movie_director \
     UNION SELECT person_id, 'show', show_id FROM show_creator \
     UNION SELECT ed.person_id, 'show', ss.show_id \
             FROM episode_director ed \
             JOIN episode e ON ed.episode_id = e.id \
             JOIN season ss ON e.season_id = ss.id";

/// … as composer.
pub const COMPOSER_WORKS: &'static str = "SELECT person_id, 'movie' AS kind, movie_id AS eid FROM movie_composer \
     UNION SELECT person_id, 'show', show_id FROM show_composer \
     UNION SELECT ec.person_id, 'show', ss.show_id \
             FROM episode_composer ec \
             JOIN episode e ON ec.episode_id = e.id \
             JOIN season ss ON e.season_id = ss.id";

/// … in any role.
pub const ALL_WORKS: &'static str = "SELECT person_id, 'movie' AS kind, movie_id AS eid FROM movie_cast \
     UNION SELECT person_id, 'show', show_id FROM show_cast \
     UNION SELECT sec.person_id, 'show', ss.show_id \
             FROM season_cast sec JOIN season ss ON sec.season_id = ss.id \
     UNION SELECT ec.person_id, 'show', ss.show_id \
             FROM episode_cast ec \
             JOIN episode e ON ec.episode_id = e.id \
             JOIN season ss ON e.season_id = ss.id \
     UNION SELECT person_id, 'movie', movie_id FROM movie_director \
     UNION SELECT person_id, 'show', show_id FROM show_creator \
     UNION SELECT ed.person_id, 'show', ss.show_id \
             FROM episode_director ed \
             JOIN episode e ON ed.episode_id = e.id \
             JOIN season ss ON e.season_id = ss.id \
     UNION SELECT person_id, 'movie', movie_id FROM movie_composer \
     UNION SELECT person_id, 'show', show_id FROM show_composer \
     UNION SELECT ec.person_id, 'show', ss.show_id \
             FROM episode_composer ec \
             JOIN episode e ON ec.episode_id = e.id \
             JOIN season ss ON e.season_id = ss.id";

/// Query body for a known role.
pub open spec fn role_body_spec(role: Seq<char>) -> Option<Seq<char>> {
    if role == "actor"@ {
        Some(ACTOR_WORKS@)
    } else if role == "director_creator"@ {
        Some(DIRECTOR_CREATOR_WORKS@)
    } else if role == "composer"@ {
        Some(COMPOSER_WORKS@)
    } else if role == "all"@ {
        Some(ALL_WORKS@)
    } else {
        None
    }
}

/// The `(person_id, kind, eid)` union for a role — `Ok` exactly for the four
/// known roles, else `Err("Invalid role: <role>")`.
pub fn role_works_body(role: &str) -> (r: Result<&'static str, String>)
    ensures
        match r {
            Ok(q) => role_body_spec(role@) == Some(q@),
            Err(e) => role_body_spec(role@) is None && e@ == "Invalid role: "@ + role@,
        },
{
    let c = chars_of(role);
    if crate::text::chars_eq(&c, &chars_of("actor")) {
        Ok(ACTOR_WORKS)
    } else if crate::text::chars_eq(&c, &chars_of("director_creator")) {
        Ok(DIRECTOR_CREATOR_WORKS)
    } else if crate::text::chars_eq(&c, &chars_of("composer")) {
        Ok(COMPOSER_WORKS)
    } else if crate::text::chars_eq(&c, &chars_of("all")) {
        Ok(ALL_WORKS)
    } else {
        let mut e = String::new();
        push_str(&mut e, "Invalid role: ");
        push_str(&mut e, role);
        Err(e)
    }
}

/// `WITH role_works AS ( <body> )` for a known role, else the same error.
pub fn role_works_cte(role: &str) -> (r: Result<String, String>)
    ensures
        match r {
            Ok(q) => role_body_spec(role@) matches Some(b) && q@ == "WITH role_works AS ( "@ + b
                + " )"@,
            Err(e) => role_body_spec(role@) is None && e@ == "Invalid role: "@ + role@,
        },
{
    let body = role_works_body(role)?;
    let mut s = String::new();
    push_str(&mut s, "WITH role_works AS ( ");
    push_str(&mut s, body);
    push_str(&mut s, " )");
    Ok(s)
}

/// A TMDB special's name matches an extra's title when, normalised, it is
/// not empty and one contains the other.
pub open spec fn names_match(want: Seq<char>, name: Seq<char>) -> bool {
    name.len() > 0 && (crate::ratings::has_sub(want, name) || crate::ratings::has_sub(name, want))
}

/// Whether special `ep` (number, name) is the one webisode `title` names:
/// by the episode number in the title when it carries one, else by name.
pub open spec fn special_fits(title: Seq<char>, ep: (i64, String)) -> bool {
    match crate::scan::episode_number_of(title) {
        Some(n) => ep.0 == n,
        None => names_match(norm_title_spec(title), norm_title_spec(ep.1@)),
    }
}

/// The first of a show's specials (`(episode number, name)`) that webisode
/// `title` matches (see `special_fits`; stated for titles that are bare file
/// names).
pub fn match_special(title: &str, specials: &[(i64, String)]) -> (r: Option<usize>)
    ensures
        crate::text::is_bare_name(title@) ==> match r {
            Some(i) => i < specials@.len() && special_fits(title@, specials@[i as int]) && forall|j: int|
                0 <= j < i ==> !special_fits(title@, #[trigger] specials@[j]),
            None => forall|j: int| 0 <= j < specials@.len() ==> !special_fits(title@, #[trigger] specials@[j]),
        },
{
    let (_, num) = crate::naming::parse_episode_filename(title);
    let want = norm_match_title(title);
    let mut i: usize = 0;
    while i < specials.len()
        invariant
            i <= specials@.len(),
            crate::text::is_bare_name(title@) ==> crate::naming::opt_view(num) == crate::scan::episode_number_of(title@),
            want@ == norm_title_spec(title@),
            crate::text::is_bare_name(title@) ==> forall|j: int| 0 <= j < i ==> !special_fits(title@, #[trigger] specials@[j]),
        decreases specials.len() - i,
    {
        let fits = match num {
            Some(n) => specials[i].0 == n as i64,
            None => {
                let name = norm_match_title(specials[i].1.as_str());
                name.unicode_len() > 0 && (crate::ratings::contains_str(want.as_str(), name.as_str())
                    || crate::ratings::contains_str(name.as_str(), want.as_str()))
            },
        };
        proof {
            if crate::text::is_bare_name(title@) {
                assert(fits == special_fits(title@, specials@[i as int]));
            }
        }
        if fits {
            return Some(i);
        }
        i += 1;
    }
    None
}

/// Only webisodes have a metadata source: an extra of another kind (or an
/// unknown one) is refused.
pub fn check_webisode_kind(kind: &Option<String>) -> (r: Result<(), String>)
    ensures
        (*kind matches Some(k) && k@ == "webisodes"@) ==> r is Ok,
        !(*kind matches Some(k) && k@ == "webisodes"@) ==> (r matches Err(e) && e@
            == "TMDB only catalogs webisodes \u{2014} there's no metadata source for this type of extra."@),
{
    match kind {
        Some(k) => if crate::text::str_eq(k.as_str(), "webisodes") {
            return Ok(());
        },
        None => {},
    }
    Err(String::from_str("TMDB only catalogs webisodes \u{2014} there's no metadata source for this type of extra."))
}

/// The TMDB id of the show whose specials are looked up: the show row's
/// (`None`: no such show; `Some(None)`: not matched yet).
pub fn specials_show_id(row: Option<Option<i64>>) -> (r: Result<i64, String>)
    ensures
        match row {
            Some(Some(id)) => r == Ok::<i64, String>(id),
            Some(None) => r matches Err(e) && e@ == "Match this show to TMDB first."@,
            None => r matches Err(e) && e@ == "Webisode metadata is only available for TV shows."@,
        },
{
    match row {
        Some(Some(id)) => Ok(id),
        Some(None) => Err(String::from_str("Match this show to TMDB first.")),
        None => Err(String::from_str("Webisode metadata is only available for TV shows.")),
    }
}

} // verus!
