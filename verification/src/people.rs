//! What a person did on a title, as the person page captions it: the
//! characters they play or voice, and their directing or composing credit
//! summarised at the highest level that applies (the whole title, full
//! seasons, or scattered episodes).

use vstd::prelude::*;
use crate::engine::strs;
use crate::session::opt_str;
use crate::credits::{format_role_list, role_list_spec, strip_voice_marker, strip_voice_spec};
use crate::ratings::{contains_str, has_sub};
use crate::text::{chars_of, decimal_int, push_decimal_i64, push_str, str_eq, trim_chars, trim_spec};

verus! {

// ---------------------------------------------------------------------------
// Directing and composing credits
// ---------------------------------------------------------------------------

/// "<word> of <n> <unit>", with an "s" after the unit unless `n` is 1.
pub open spec fn counted_credit(word: Seq<char>, n: i64, unit: Seq<char>) -> Seq<char> {
    word + " of "@ + decimal_int(n as int) + " "@ + unit + if n == 1 {
        Seq::<char>::empty()
    } else {
        "s"@
    }
}

/// The credit a person's episode coverage of a show earns: `coverage` is
/// (seasons they worked every episode of, episodes they worked in the other
/// seasons), absent when they worked no episode. Every season of the show
/// reads as the whole show; full seasons outrank stray episodes.
pub open spec fn coverage_credit(word: Seq<char>, coverage: Option<(i64, i64)>, total_seasons: i64) -> Option<Seq<char>> {
    match coverage {
        None => None,
        Some((full, partial)) => if full > 0 && full == total_seasons {
            Some(word)
        } else if full > 0 {
            Some(counted_credit(word, full, "season"@))
        } else if partial > 0 {
            Some(counted_credit(word, partial, "episode"@))
        } else {
            None
        },
    }
}

/// A directing credit: directing the movie, or creating the show (which
/// outranks any episode credit), else the episode coverage.
pub open spec fn director_credit_spec(directs_movie: bool, created_show: bool, coverage: Option<(i64, i64)>, total_seasons: i64) -> Option<Seq<char>> {
    if directs_movie {
        Some("director"@)
    } else if created_show {
        Some("creator"@)
    } else {
        coverage_credit("director"@, coverage, total_seasons)
    }
}

/// A composing credit: scoring the whole movie or show, else the episode
/// coverage.
pub open spec fn composer_credit_spec(composes_whole: bool, coverage: Option<(i64, i64)>, total_seasons: i64) -> Option<Seq<char>> {
    if composes_whole {
        Some("composer"@)
    } else {
        coverage_credit("composer"@, coverage, total_seasons)
    }
}

fn word_string(word: &str) -> (r: String)
    ensures
        r@ == word@,
{
    let mut s = String::new();
    push_str(&mut s, word);
    proof {
        assert(s@ =~= word@);
    }
    s
}

fn push_counted(out: &mut String, word: &str, n: i64, unit: &str)
    ensures
        final(out)@ == old(out)@ + counted_credit(word@, n, unit@),
{
    push_str(out, word);
    push_str(out, " of ");
    push_decimal_i64(out, n);
    push_str(out, " ");
    push_str(out, unit);
    if n != 1 {
        push_str(out, "s");
    }
    proof {
        let tail: Seq<char> = if n == 1 {
            Seq::<char>::empty()
        } else {
            "s"@
        };
        assert(final(out)@ =~= old(out)@ + counted_credit(word@, n, unit@)) by {
            assert(counted_credit(word@, n, unit@) == word@ + " of "@ + decimal_int(n as int) + " "@ + unit@ + tail);
        }
    }
}

/// The credit line `coverage_credit` describes.
pub fn coverage_credit_line(word: &str, coverage: Option<(i64, i64)>, total_seasons: i64) -> (r: Option<String>)
    ensures
        opt_str(r) == coverage_credit(word@, coverage, total_seasons),
{
    match coverage {
        None => None,
        Some((full, partial)) => {
            if full > 0 && full == total_seasons {
                Some(word_string(word))
            } else if full > 0 {
                let mut s = String::new();
                push_counted(&mut s, word, full, "season");
                proof {
                    assert(s@ =~= counted_credit(word@, full, "season"@));
                }
                Some(s)
            } else if partial > 0 {
                let mut s = String::new();
                push_counted(&mut s, word, partial, "episode");
                proof {
                    assert(s@ =~= counted_credit(word@, partial, "episode"@));
                }
                Some(s)
            } else {
                None
            }
        },
    }
}

/// The directing credit of a title (see `director_credit_spec`).
pub fn director_credit(directs_movie: bool, created_show: bool, coverage: Option<(i64, i64)>, total_seasons: i64) -> (r: Option<String>)
    ensures
        opt_str(r) == director_credit_spec(directs_movie, created_show, coverage, total_seasons),
{
    if directs_movie {
        Some(word_string("director"))
    } else if created_show {
        Some(word_string("creator"))
    } else {
        coverage_credit_line("director", coverage, total_seasons)
    }
}

/// The composing credit of a title (see `composer_credit_spec`).
pub fn composer_credit(composes_whole: bool, coverage: Option<(i64, i64)>, total_seasons: i64) -> (r: Option<String>)
    ensures
        opt_str(r) == composer_credit_spec(composes_whole, coverage, total_seasons),
{
    if composes_whole {
        Some(word_string("composer"))
    } else {
        coverage_credit_line("composer", coverage, total_seasons)
    }
}

/// A person's episode coverage of show `show`, from the rows (show, episodes
/// in the season, episodes of it they worked) of the seasons they worked
/// in: (seasons they worked every episode of, episodes they worked in the
/// other seasons); absent when no row is for that show.
pub open spec fn show_coverage_spec(rows: Seq<(i64, i64, i64)>, show: i64) -> Option<(int, int)>
    decreases rows.len(),
{
    if rows.len() == 0 {
        None
    } else {
        let rest = show_coverage_spec(rows.drop_last(), show);
        let row = rows.last();
        if row.0 != show {
            rest
        } else {
            let (f, p) = match rest {
                Some(x) => x,
                None => (0int, 0int),
            };
            if row.1 > 0 && row.2 >= row.1 {
                Some((f + 1, p))
            } else {
                Some((f, p + row.2))
            }
        }
    }
}

/// The coverage `show_coverage_spec` describes.
pub fn show_coverage(rows: &[(i64, i64, i64)], show: i64) -> (r: Option<(i64, i64)>)
    requires
        show_coverage_spec(rows@, show) matches Some((f, p)) ==> f <= i64::MAX && i64::MIN <= p <= i64::MAX,
    ensures
        match r {
            Some((f, p)) => show_coverage_spec(rows@, show) == Some((f as int, p as int)),
            None => show_coverage_spec(rows@, show) is None,
        },
{
    let mut found = false;
    let mut full: u64 = 0;
    let mut partial: i128 = 0;
    let mut k: usize = 0;
    while k < rows.len()
        invariant
            k <= rows@.len(),
            found == (show_coverage_spec(rows@.take(k as int), show) is Some),
            found ==> show_coverage_spec(rows@.take(k as int), show) == Some((full as int, partial as int)),
            !found ==> full == 0 && partial == 0,
            full <= k,
            -(k * 0x8000_0000_0000_0000int) <= partial <= k * 0x8000_0000_0000_0000int,
        decreases rows.len() - k,
    {
        proof {
            assert(rows@.take(k as int + 1).drop_last() =~= rows@.take(k as int));
            assert(rows@.take(k as int + 1).last() == rows@[k as int]);
        }
        let (sid, total, worked) = rows[k];
        if sid == show {
            found = true;
            if total > 0 && worked >= total {
                full = full + 1;
            } else {
                partial = partial + worked as i128;
            }
        }
        k += 1;
    }
    proof {
        assert(rows@.take(rows@.len() as int) =~= rows@);
    }
    if found {
        Some((full as i64, partial as i64))
    } else {
        None
    }
}

// ---------------------------------------------------------------------------
// Characters
// ---------------------------------------------------------------------------

/// The characters credited on title `id`, from the rows (title, character)
/// of the person's cast credits in billing order: blank and missing names
/// dropped, each name once, first billing first.
pub open spec fn entry_roles_spec(rows: Seq<(i64, Option<String>)>, id: i64) -> Seq<Seq<char>>
    decreases rows.len(),
{
    if rows.len() == 0 {
        Seq::empty()
    } else {
        let rest = entry_roles_spec(rows.drop_last(), id);
        let row = rows.last();
        match row.1 {
            Some(r) => if row.0 == id && trim_spec(r@).len() > 0 && !rest.contains(r@) {
                rest.push(r@)
            } else {
                rest
            },
            None => rest,
        }
    }
}

/// Whether some string of `list` is `s`.
fn has_string(list: &Vec<String>, s: &str) -> (b: bool)
    ensures
        b == strs(list@).contains(s@),
{
    let mut i: usize = 0;
    while i < list.len()
        invariant
            i <= list@.len(),
            forall|k: int| 0 <= k < i ==> (#[trigger] list@[k])@ != s@,
        decreases list.len() - i,
    {
        if str_eq(list[i].as_str(), s) {
            proof {
                assert(strs(list@)[i as int] == s@);
            }
            return true;
        }
        i += 1;
    }
    proof {
        if strs(list@).contains(s@) {
            let k = choose|k: int| 0 <= k < strs(list@).len() && strs(list@)[k] == s@;
            assert(list@[k]@ == s@);
        }
    }
    false
}

fn push_string(list: &mut Vec<String>, s: String)
    ensures
        strs(final(list)@) == strs(old(list)@).push(s@),
{
    list.push(s);
    proof {
        assert(strs(final(list)@) =~= strs(old(list)@).push(s@));
    }
}

/// The characters `entry_roles_spec` describes.
pub fn entry_roles(rows: &[(i64, Option<String>)], id: i64) -> (r: Vec<String>)
    ensures
        strs(r@) == entry_roles_spec(rows@, id),
{
    let mut out: Vec<String> = Vec::new();
    let mut k: usize = 0;
    proof {
        assert(strs(out@) =~= Seq::<Seq<char>>::empty());
    }
    while k < rows.len()
        invariant
            k <= rows@.len(),
            strs(out@) == entry_roles_spec(rows@.take(k as int), id),
        decreases rows.len() - k,
    {
        proof {
            assert(rows@.take(k as int + 1).drop_last() =~= rows@.take(k as int));
            assert(rows@.take(k as int + 1).last() == rows@[k as int]);
        }
        if rows[k].0 == id {
            match &rows[k].1 {
                Some(r) => {
                    let t = trim_chars(&chars_of(r.as_str()));
                    if t.len() > 0 && !has_string(&out, r.as_str()) {
                        push_string(&mut out, r.clone());
                    }
                },
                None => {},
            }
        }
        k += 1;
    }
    proof {
        assert(rows@.take(rows@.len() as int) =~= rows@);
    }
    out
}

/// A role marked as a voice part.
pub open spec fn is_voice_role(r: Seq<char>) -> bool {
    has_sub(r, "(voice)"@) || has_sub(r, "(Voice)"@)
}

/// The played characters and the voiced ones (their "(voice)" marker
/// removed), each once in the order first met; a voiced name that is blank
/// once cleaned is dropped.
pub open spec fn role_groups(roles: Seq<Seq<char>>) -> (Seq<Seq<char>>, Seq<Seq<char>>)
    decreases roles.len(),
{
    if roles.len() == 0 {
        (Seq::empty(), Seq::empty())
    } else {
        let (acting, voiced) = role_groups(roles.drop_last());
        let r = roles.last();
        if is_voice_role(r) {
            let c = strip_voice_spec(r);
            if c.len() > 0 && !voiced.contains(c) {
                (acting, voiced.push(c))
            } else {
                (acting, voiced)
            }
        } else if !acting.contains(r) {
            (acting.push(r), voiced)
        } else {
            (acting, voiced)
        }
    }
}

/// The groups `role_groups` describes: (played, voiced).
pub fn split_roles(roles: &[String]) -> (r: (Vec<String>, Vec<String>))
    ensures
        (strs(r.0@), strs(r.1@)) == role_groups(strs(roles@)),
{
    let mut acting: Vec<String> = Vec::new();
    let mut voiced: Vec<String> = Vec::new();
    let mut k: usize = 0;
    proof {
        assert(strs(roles@).take(0) =~= Seq::<Seq<char>>::empty());
        assert(strs(acting@) =~= Seq::<Seq<char>>::empty());
        assert(strs(voiced@) =~= Seq::<Seq<char>>::empty());
    }
    while k < roles.len()
        invariant
            k <= roles@.len(),
            (strs(acting@), strs(voiced@)) == role_groups(strs(roles@).take(k as int)),
        decreases roles.len() - k,
    {
        let ghost views = strs(roles@);
        proof {
            assert(views.take(k as int + 1).drop_last() =~= views.take(k as int));
            assert(views.take(k as int + 1).last() == roles@[k as int]@);
        }
        let r = roles[k].as_str();
        if contains_str(r, "(voice)") || contains_str(r, "(Voice)") {
            let c = strip_voice_marker(r);
            if chars_of(c.as_str()).len() > 0 && !has_string(&voiced, c.as_str()) {
                push_string(&mut voiced, c);
            }
        } else if !has_string(&acting, r) {
            push_string(&mut acting, roles[k].clone());
        }
        k += 1;
    }
    proof {
        assert(strs(roles@).take(roles@.len() as int) =~= strs(roles@));
    }
    (acting, voiced)
}

// ---------------------------------------------------------------------------
// The caption
// ---------------------------------------------------------------------------

/// `parts` with `o` appended when present.
pub open spec fn push_some(parts: Seq<Seq<char>>, o: Option<Seq<char>>) -> Seq<Seq<char>> {
    match o {
        Some(x) => parts.push(x),
        None => parts,
    }
}

/// `parts` joined with " · ".
pub open spec fn join_dots(parts: Seq<Seq<char>>) -> Seq<char>
    decreases parts.len(),
{
    if parts.len() == 0 {
        Seq::empty()
    } else if parts.len() == 1 {
        parts[0]
    } else {
        join_dots(parts.drop_last()) + " · "@ + parts.last()
    }
}

/// The caption of a title on a person's page: "as …" for played
/// characters, "voices …" for voiced ones, then the directing and the
/// composing credit, joined by " · "; none when there is nothing to say.
pub open spec fn role_display_spec(roles: Seq<Seq<char>>, director: Option<Seq<char>>, composer: Option<Seq<char>>) -> Option<Seq<char>> {
    let (acting, voiced) = role_groups(roles);
    let parts = push_some(
        push_some(push_some(push_some(Seq::empty(), role_list_spec("as"@, acting)), role_list_spec("voices"@, voiced)), director),
        composer,
    );
    if parts.len() == 0 {
        None
    } else {
        Some(join_dots(parts))
    }
}

fn push_opt(parts: &mut Vec<String>, o: Option<String>)
    ensures
        strs(final(parts)@) == push_some(strs(old(parts)@), opt_str(o)),
{
    match o {
        Some(x) => push_string(parts, x),
        None => {},
    }
}

fn join_with_dots(parts: &Vec<String>) -> (r: String)
    ensures
        r@ == join_dots(strs(parts@)),
{
    let mut out = String::new();
    let mut k: usize = 0;
    proof {
        assert(strs(parts@).take(0) =~= Seq::<Seq<char>>::empty());
    }
    while k < parts.len()
        invariant
            k <= parts@.len(),
            out@ == join_dots(strs(parts@).take(k as int)),
        decreases parts.len() - k,
    {
        let ghost views = strs(parts@);
        proof {
            assert(views.take(k as int + 1).drop_last() =~= views.take(k as int));
            assert(views.take(k as int + 1).last() == parts@[k as int]@);
        }
        if k > 0 {
            push_str(&mut out, " · ");
        }
        push_str(&mut out, parts[k].as_str());
        proof {
            if k == 0 {
                assert(views.take(1)[0] == parts@[0]@);
                assert(out@ =~= join_dots(views.take(1)));
            } else {
                assert(out@ =~= join_dots(views.take(k as int + 1)));
            }
        }
        k += 1;
    }
    proof {
        assert(strs(parts@).take(parts@.len() as int) =~= strs(parts@));
    }
    out
}

/// The caption `role_display_spec` describes, for the characters `roles`
/// of one title and its credits.
pub fn person_role_display(roles: &[String], director: Option<String>, composer: Option<String>) -> (r: Option<String>)
    ensures
        opt_str(r) == role_display_spec(strs(roles@), opt_str(director), opt_str(composer)),
{
    let (acting, voiced) = split_roles(roles);
    let mut parts: Vec<String> = Vec::new();
    proof {
        assert(strs(parts@) =~= Seq::<Seq<char>>::empty());
    }
    let a = format_role_list("as", acting.as_slice());
    let v = format_role_list("voices", voiced.as_slice());
    proof {
        assert(acting@.map_values(|x: String| x@) == strs(acting@));
        assert(voiced@.map_values(|x: String| x@) == strs(voiced@));
    }
    push_opt(&mut parts, a);
    push_opt(&mut parts, v);
    push_opt(&mut parts, director);
    push_opt(&mut parts, composer);
    if parts.len() == 0 {
        None
    } else {
        Some(join_with_dots(&parts))
    }
}

} // verus!
