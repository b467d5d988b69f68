//! File- and folder-name conventions of a media library: episode markers
//! (`S01E02`, `1x02`, multi-episode ranges), season folders, track numbers,
//! `Title (Year)` folders, sort titles and extras folders.
//!
//! Every parser reads the lowercased stem as a character sequence; the
//! markers are ASCII, so character positions behave as the byte positions a
//! byte-level reader would use.

use vstd::prelude::*;
use crate::text::{
    all_ascii, last_segment, names_file,
    ascii_lower_seq, ascii_lowercase, contains_word, chars_eq, copy_range, has_prefix, lemma_run_len, parse_i32, parse_i32_spec, read_run_upto,
    starts_with, string_of, string_of_range, trim_bounds, trim_chars, trim_spec,
    chars_of, digits_val, file_stem, is_ascii_digit, is_bare_name, is_digit, lemma_digits_val_nonneg,
    lemma_run_all_digits, lowercase_of, read_digit_run, run_len, stem_rule, to_lowercase,
};

verus! {

// ---------------------------------------------------------------------------
// Digits
// ---------------------------------------------------------------------------

/// A run of ASCII digits at `pos` and the position just past it; `None` when
/// there is no digit there or the run's value does not fit in `i32`.
pub open spec fn read_spec(s: Seq<char>, pos: int) -> Option<(int, int)> {
    let n = run_len(s, pos);
    let v = digits_val(s, pos, n);
    if n == 0 || v > i32::MAX {
        None
    } else {
        Some((v, pos + n))
    }
}

pub open spec fn pair_view(r: Option<(i32, usize)>) -> Option<(int, int)> {
    match r {
        Some((v, e)) => Some((v as int, e as int)),
        None => None,
    }
}

pub open spec fn opt_view(r: Option<i32>) -> Option<int> {
    match r {
        Some(v) => Some(v as int),
        None => None,
    }
}

pub proof fn lemma_read_advances(s: Seq<char>, pos: int)
    requires
        0 <= pos <= s.len(),
    ensures
        read_spec(s, pos) matches Some((v, e)) ==> pos < e <= s.len() && 0 <= v <= i32::MAX,
{
    lemma_run_all_digits(s, pos);
    if run_len(s, pos) > 0 {
        lemma_digits_val_nonneg(s, pos, run_len(s, pos));
    }
}

/// Read the run of ASCII digits at `pos`: its value and the index just past
/// it.
pub fn read_episode_digits(lower: &[char], pos: usize) -> (r: Option<(i32, usize)>)
    requires
        pos <= lower@.len(),
    ensures
        pair_view(r) == read_spec(lower@, pos as int),
        r matches Some((v, e)) ==> pos < e <= lower@.len() && v >= 0,
{
    proof {
        lemma_read_advances(lower@, pos as int);
    }
    match read_digit_run(lower, pos) {
        Some((v, e)) => {
            if e == pos {
                None
            } else {
                Some((v, e))
            }
        },
        None => None,
    }
}

// ---------------------------------------------------------------------------
// Episode markers
// ---------------------------------------------------------------------------

/// `SxxEyy` starting at `i`: the episode number and the index after it.
pub open spec fn sxe_at(s: Seq<char>, i: int) -> Option<(int, int)> {
    if 0 <= i < s.len() && s[i] == 's' {
        match read_spec(s, i + 1) {
            Some((_, a)) => if a < s.len() && s[a] == 'e' {
                read_spec(s, a + 1)
            } else {
                None
            },
            None => None,
        }
    } else {
        None
    }
}

/// `NxMM` starting at `i` (a digit run not preceded by a digit, at most 99,
/// then `x` and digits): the episode number and the index after it.
pub open spec fn nx_at(s: Seq<char>, i: int) -> Option<(int, int)> {
    if 0 <= i < s.len() && is_digit(s[i]) && (i == 0 || !is_digit(s[i - 1])) {
        match read_spec(s, i) {
            Some((season, a)) => if season <= 99 && a < s.len() && s[a] == 'x' {
                read_spec(s, a + 1)
            } else {
                None
            },
            None => None,
        }
    } else {
        None
    }
}

/// First `SxxEyy` at or after `i`.
pub open spec fn first_sxe(s: Seq<char>, i: int) -> Option<(int, int)>
    decreases s.len() - i,
{
    if i < 0 || i >= s.len() {
        None
    } else {
        match sxe_at(s, i) {
            Some(r) => Some(r),
            None => first_sxe(s, i + 1),
        }
    }
}

/// First `NxMM` at or after `i`.
pub open spec fn first_nx(s: Seq<char>, i: int) -> Option<(int, int)>
    decreases s.len() - i,
{
    if i < 0 || i >= s.len() {
        None
    } else {
        match nx_at(s, i) {
            Some(r) => Some(r),
            None => first_nx(s, i + 1),
        }
    }
}

/// The first episode: an `SxxEyy` marker anywhere wins over `NxMM`.
pub open spec fn first_episode(s: Seq<char>) -> Option<(int, int)> {
    match first_sxe(s, 0) {
        Some(r) => Some(r),
        None => first_nx(s, 0),
    }
}

/// A range continuation at `pos`: `-E02`, `-02`, `-1x02`, or an adjacent
/// `E02` / `x02`.
pub open spec fn cont_at(s: Seq<char>, pos: int) -> Option<(int, int)> {
    if 0 <= pos < s.len() && s[pos] == '-' {
        let p = pos + 1;
        if p < s.len() && s[p] == 'e' {
            read_spec(s, p + 1)
        } else {
            match read_spec(s, p) {
                Some((n1, a1)) => if a1 < s.len() && s[a1] == 'x' {
                    read_spec(s, a1 + 1)
                } else {
                    Some((n1, a1))
                },
                None => None,
            }
        }
    } else if 0 <= pos < s.len() && (s[pos] == 'e' || s[pos] == 'x') {
        read_spec(s, pos + 1)
    } else {
        None
    }
}

pub proof fn lemma_cont_advances(s: Seq<char>, pos: int)
    requires
        0 <= pos <= s.len(),
    ensures
        cont_at(s, pos) matches Some((n, a)) ==> pos < a <= s.len() && n >= 0,
{
    if 0 <= pos < s.len() {
        lemma_read_advances(s, pos + 1);
        if pos + 1 < s.len() {
            lemma_read_advances(s, pos + 2);
        }
        if let Some((n1, a1)) = read_spec(s, pos + 1) {
            if a1 < s.len() {
                lemma_read_advances(s, a1 + 1);
            }
        }
    }
}

/// The last episode of the range that starts with episode `last` and
/// continues at `pos`: each continuation must step up by 1 to 50.
pub open spec fn walk(s: Seq<char>, last: int, pos: int) -> int
    decreases s.len() - pos,
{
    match cont_at(s, pos) {
        Some((n, after)) => if n > last && n <= last + 50 && pos < after <= s.len() {
            walk(s, n, after)
        } else {
            last
        },
        None => last,
    }
}

/// (first episode, last episode of a genuine multi-episode range) of a
/// lowercased stem.
pub open spec fn episode_range_spec(s: Seq<char>) -> (Option<int>, Option<int>) {
    match first_episode(s) {
        None => (None, None),
        Some((ep, at)) => {
            let l = walk(s, ep, at);
            (Some(ep), if l > ep { Some(l) } else { None })
        },
    }
}

fn sxe_at_exec(s: &[char], i: usize) -> (r: Option<(i32, usize)>)
    requires
        i < s@.len(),
    ensures
        pair_view(r) == sxe_at(s@, i as int),
{
    if s[i] != 's' {
        return None;
    }
    match read_episode_digits(s, i + 1) {
        Some((_, a)) => {
            if a < s.len() && s[a] == 'e' {
                read_episode_digits(s, a + 1)
            } else {
                None
            }
        },
        None => None,
    }
}

fn nx_at_exec(s: &[char], i: usize) -> (r: Option<(i32, usize)>)
    requires
        i < s@.len(),
    ensures
        pair_view(r) == nx_at(s@, i as int),
{
    if !is_ascii_digit(s[i]) || (i > 0 && is_ascii_digit(s[i - 1])) {
        return None;
    }
    match read_episode_digits(s, i) {
        Some((season, a)) => {
            if season <= 99 && a < s.len() && s[a] == 'x' {
                read_episode_digits(s, a + 1)
            } else {
                None
            }
        },
        None => None,
    }
}

fn first_episode_exec(s: &[char]) -> (r: Option<(i32, usize)>)
    ensures
        pair_view(r) == first_episode(s@),
        r matches Some((_, e)) ==> e <= s@.len(),
{
    let mut i: usize = 0;
    while i < s.len()
        invariant
            i <= s@.len(),
            first_sxe(s@, 0) == first_sxe(s@, i as int),
        decreases s.len() - i,
    {
        let r = sxe_at_exec(s, i);
        if r.is_some() {
            proof {
                lemma_read_advances(s@, i + 1);
                if let Some((_, a)) = read_spec(s@, i + 1) {
                    if a < s@.len() {
                        lemma_read_advances(s@, a + 1);
                    }
                }
            }
            return r;
        }
        i += 1;
    }
    let mut i: usize = 0;
    while i < s.len()
        invariant
            i <= s@.len(),
            first_sxe(s@, 0) is None,
            first_nx(s@, 0) == first_nx(s@, i as int),
        decreases s.len() - i,
    {
        let r = nx_at_exec(s, i);
        if r.is_some() {
            proof {
                lemma_read_advances(s@, i as int);
                if let Some((_, a)) = read_spec(s@, i as int) {
                    if a < s@.len() {
                        lemma_read_advances(s@, a + 1);
                    }
                }
            }
            return r;
        }
        i += 1;
    }
    None
}

fn cont_at_exec(s: &[char], pos: usize) -> (r: Option<(i32, usize)>)
    requires
        pos <= s@.len(),
    ensures
        pair_view(r) == cont_at(s@, pos as int),
{
    if pos < s.len() && s[pos] == '-' {
        let p = pos + 1;
        if p < s.len() && s[p] == 'e' {
            read_episode_digits(s, p + 1)
        } else {
            match read_episode_digits(s, p) {
                Some((n1, a1)) => {
                    if a1 < s.len() && s[a1] == 'x' {
                        read_episode_digits(s, a1 + 1)
                    } else {
                        Some((n1, a1))
                    }
                },
                None => None,
            }
        }
    } else if pos < s.len() && (s[pos] == 'e' || s[pos] == 'x') {
        read_episode_digits(s, pos + 1)
    } else {
        None
    }
}

/// First episode and (for genuine multi-episode files) last episode named by
/// a lowercased stem: `s01e01-e02`, `s01e01e02`, `s01e01-02`, `1x01-1x02`,
/// `1x01-02`, triples and beyond. A continuation counts only when it steps up
/// by 1 to 50, so resolution and quality tags are never read as range ends.
pub fn episode_range_of(lower: &[char]) -> (r: (Option<i32>, Option<i32>))
    ensures
        (opt_view(r.0), opt_view(r.1)) == episode_range_spec(lower@),
{
    let first = first_episode_exec(lower);
    let (first_ep, start_pos) = match first {
        Some(v) => v,
        None => return (None, None),
    };
    let mut last: i32 = first_ep;
    let mut pos: usize = start_pos;
    loop
        invariant
            pos <= lower@.len(),
            first_ep <= last,
            walk(lower@, first_ep as int, start_pos as int) == walk(lower@, last as int, pos as int),
        ensures
            first_ep <= last,
            walk(lower@, first_ep as int, start_pos as int) == last,
        decreases lower@.len() - pos,
    {
        let next = cont_at_exec(lower, pos);
        proof {
            lemma_cont_advances(lower@, pos as int);
        }
        match next {
            Some((n, after)) => {
                if n > last && (n as i64) <= (last as i64) + 50 {
                    last = n;
                    pos = after;
                } else {
                    break;
                }
            },
            None => break,
        }
    }
    let end = if last > first_ep {
        Some(last)
    } else {
        None
    };
    (Some(first_ep), end)
}

/// Split an episode filename into (title stem, first episode, last episode
/// of a multi-episode range). The numbers are read from the lowercased stem.
pub fn parse_episode_range(name: &str) -> (r: (String, Option<i32>, Option<i32>))
    ensures
        is_bare_name(name@) ==> r.0@ == stem_rule(name@),
        names_file(name@) ==> r.0@ == stem_rule(last_segment(name@)),
        (opt_view(r.1), opt_view(r.2)) == episode_range_spec(lowercase_of(r.0@)),
        all_ascii(r.0@) ==> (opt_view(r.1), opt_view(r.2)) == episode_range_spec(ascii_lower_seq(r.0@)),
{
    let stem = file_stem(name);
    let lower = to_lowercase(stem.as_str());
    let chars = chars_of(lower.as_str());
    let (first, end) = episode_range_of(&chars);
    (stem, first, end)
}

proof fn lemma_last_dot_bound(s: Seq<char>)
    ensures
        crate::text::last_dot(s) matches Some(d) ==> 0 <= d < s.len(),
    decreases s.len(),
{
    if s.len() > 0 {
        lemma_last_dot_bound(s.drop_last());
    }
}

/// The stem of an ASCII name is ASCII.
pub proof fn lemma_stem_ascii(s: Seq<char>)
    ensures
        all_ascii(s) ==> all_ascii(stem_rule(s)),
{
    lemma_last_dot_bound(s);
    if all_ascii(s) {
        let t = stem_rule(s);
        assert forall|i: int| 0 <= i < t.len() implies (t[i] as u32) < 128 by {
            assert(t[i] == s[i]);
        }
    }
}

/// (title stem, first episode).
pub fn parse_episode_filename(name: &str) -> (r: (String, Option<i32>))
    ensures
        is_bare_name(name@) ==> r.0@ == stem_rule(name@),
        names_file(name@) ==> r.0@ == stem_rule(last_segment(name@)),
        opt_view(r.1) == episode_range_spec(lowercase_of(r.0@)).0,
        all_ascii(r.0@) ==> opt_view(r.1) == episode_range_spec(ascii_lower_seq(r.0@)).0,
{
    let (stem, start, _end) = parse_episode_range(name);
    (stem, start)
}

// ---------------------------------------------------------------------------
// Season numbers
// ---------------------------------------------------------------------------

/// Season of an `SxxEyy` marker at `i` (an episode number must follow).
pub open spec fn season_sxe_at(s: Seq<char>, i: int) -> Option<int> {
    if 0 <= i < s.len() && s[i] == 's' {
        match read_spec(s, i + 1) {
            Some((season, a)) => if a < s.len() && s[a] == 'e' && read_spec(s, a + 1) is Some {
                Some(season)
            } else {
                None
            },
            None => None,
        }
    } else {
        None
    }
}

/// Season of an `NxMM` marker at `i`.
pub open spec fn season_nx_at(s: Seq<char>, i: int) -> Option<int> {
    if 0 <= i < s.len() && is_digit(s[i]) && (i == 0 || !is_digit(s[i - 1])) {
        match read_spec(s, i) {
            Some((season, a)) => if season <= 99 && a < s.len() && s[a] == 'x' && read_spec(
                s,
                a + 1,
            ) is Some {
                Some(season)
            } else {
                None
            },
            None => None,
        }
    } else {
        None
    }
}

pub open spec fn first_season_sxe(s: Seq<char>, i: int) -> Option<int>
    decreases s.len() - i,
{
    if i < 0 || i >= s.len() {
        None
    } else {
        match season_sxe_at(s, i) {
            Some(r) => Some(r),
            None => first_season_sxe(s, i + 1),
        }
    }
}

pub open spec fn first_season_nx(s: Seq<char>, i: int) -> Option<int>
    decreases s.len() - i,
{
    if i < 0 || i >= s.len() {
        None
    } else {
        match season_nx_at(s, i) {
            Some(r) => Some(r),
            None => first_season_nx(s, i + 1),
        }
    }
}

/// Season named by a lowercased stem's `SxxEyy` (preferred) or `NxMM` marker.
pub open spec fn season_number_spec(s: Seq<char>) -> Option<int> {
    match first_season_sxe(s, 0) {
        Some(r) => Some(r),
        None => first_season_nx(s, 0),
    }
}

/// Season number from the marker of a lowercased stem.
pub fn season_number_of(lower: &[char]) -> (r: Option<i32>)
    ensures
        opt_view(r) == season_number_spec(lower@),
{
    let mut i: usize = 0;
    while i < lower.len()
        invariant
            i <= lower@.len(),
            first_season_sxe(lower@, 0) == first_season_sxe(lower@, i as int),
        decreases lower.len() - i,
    {
        if lower[i] == 's' {
            if let Some((season, after_s)) = read_episode_digits(lower, i + 1) {
                if after_s < lower.len() && lower[after_s] == 'e' && read_episode_digits(
                    lower,
                    after_s + 1,
                ).is_some() {
                    return Some(season);
                }
            }
        }
        i += 1;
    }
    let mut i: usize = 0;
    while i < lower.len()
        invariant
            i <= lower@.len(),
            first_season_sxe(lower@, 0) is None,
            first_season_nx(lower@, 0) == first_season_nx(lower@, i as int),
        decreases lower.len() - i,
    {
        if is_ascii_digit(lower[i]) && !(i > 0 && is_ascii_digit(lower[i - 1])) {
            if let Some((season, after_season)) = read_episode_digits(lower, i) {
                if season <= 99 && after_season < lower.len() && lower[after_season] == 'x'
                    && read_episode_digits(lower, after_season + 1).is_some() {
                    return Some(season);
                }
            }
        }
        i += 1;
    }
    None
}

/// Season number from an episode filename's `SxxEyy` / `NxMM` marker; `None`
/// when the name carries none.
pub fn parse_season_number(name: &str) -> (r: Option<i32>)
    ensures
        is_bare_name(name@) ==> opt_view(r) == season_number_spec(lowercase_of(stem_rule(name@))),
        names_file(name@) ==> opt_view(r) == season_number_spec(lowercase_of(stem_rule(last_segment(name@)))),
        is_bare_name(name@) && all_ascii(name@) ==> opt_view(r) == season_number_spec(ascii_lower_seq(stem_rule(name@))),
{
    proof {
        lemma_stem_ascii(name@);
    }
    let stem = file_stem(name);
    let lower = to_lowercase(stem.as_str());
    let chars = chars_of(lower.as_str());
    season_number_of(&chars)
}

proof fn lemma_first_season_matches(s: Seq<char>, i: int)
    ensures
        (first_season_sxe(s, i) is Some) == (first_sxe(s, i) is Some),
        (first_season_nx(s, i) is Some) == (first_nx(s, i) is Some),
    decreases s.len() - i,
{
    if 0 <= i < s.len() {
        assert((season_sxe_at(s, i) is Some) == (sxe_at(s, i) is Some));
        assert((season_nx_at(s, i) is Some) == (nx_at(s, i) is Some));
        lemma_first_season_matches(s, i + 1);
    }
}

/// A stem names a season exactly when it carries an episode marker: the
/// season reading and the episode reading look for the same `SxxEyy` /
/// `NxMM` markers.
pub proof fn law_season_iff_episode(stem: Seq<char>)
    ensures
        (season_number_spec(lowercase_of(stem)) is Some) == (episode_range_spec(lowercase_of(stem)).0 is Some),
{
    lemma_first_season_matches(lowercase_of(stem), 0);
}

/// For a file name or a plain `/` path naming a file, `parse_season_number`
/// gives a season exactly when `parse_episode_range` finds a first episode.
pub proof fn law_season_number_matches_episode(name: Seq<char>, season: Option<int>, range: (Seq<char>, Option<int>, Option<int>))
    requires
        names_file(name) || is_bare_name(name),
        season == season_number_spec(lowercase_of(stem_rule(last_segment(name)))),
        range.0 == stem_rule(last_segment(name)),
        (range.1, range.2) == episode_range_spec(lowercase_of(range.0)),
    ensures
        (season is Some) == (range.1 is Some),
{
    crate::text::lemma_bare_names_file(name);
    law_season_iff_episode(stem_rule(last_segment(name)));
}

// ---------------------------------------------------------------------------
// Season folders
// ---------------------------------------------------------------------------

pub open spec fn is_token_sep(c: char) -> bool {
    c == '.' || c == '_' || c == '-' || c == ' '
}

/// A scene-style `Snn` token at `i`: preceded by the start or `.`/`_`/`-`/
/// space, not the start of an `SxxEyy` episode marker.
pub open spec fn season_token_at(s: Seq<char>, i: int) -> Option<int> {
    if 0 <= i < s.len() && s[i] == 's' && (i == 0 || is_token_sep(s[i - 1])) {
        let n = run_len(s, i + 1);
        let after = i + 1 + n;
        if n == 0 {
            None
        } else if after < s.len() && s[after] == 'e' && run_len(s, after + 1) > 0 {
            None
        } else if digits_val(s, i + 1, n) <= i32::MAX {
            Some(digits_val(s, i + 1, n))
        } else {
            None
        }
    } else {
        None
    }
}

pub open spec fn first_season_token(s: Seq<char>, i: int) -> Option<int>
    decreases s.len() - i,
{
    if i < 0 || i >= s.len() {
        None
    } else {
        match season_token_at(s, i) {
            Some(r) => Some(r),
            None => first_season_token(s, i + 1),
        }
    }
}

/// Season of a lowercased season-folder name: "specials" is season 0, then
/// "season N", then "sNN", then an `Snn` token anywhere.
pub open spec fn season_folder_spec(l: Seq<char>) -> Option<int> {
    let after_season = l.skip("season "@.len() as int);
    let rest_s = l.skip(1);
    if trim_spec(l) == "specials"@ {
        Some(0)
    } else if starts_with(l, "season "@) && parse_i32_spec(trim_spec(after_season)) is Some {
        Some(parse_i32_spec(trim_spec(after_season))->0 as int)
    } else if l.len() > 1 && l[0] == 's' && run_len(l, 1) == l.len() - 1 && digits_val(
        l,
        1,
        run_len(l, 1),
    ) <= i32::MAX {
        Some(digits_val(l, 1, run_len(l, 1)))
    } else {
        first_season_token(l, 0)
    }
}

/// No season token starts at `j..i` of `l`, so the first one at or after `j`
/// is the first one at or after `i`.
proof fn lemma_trail_white_le(s: Seq<char>)
    ensures
        crate::text::trail_white(s) <= s.len(),
    decreases s.len(),
{
    if s.len() > 0 {
        lemma_trail_white_le(s.drop_last());
    }
}

proof fn lemma_no_token_before(l: Seq<char>, j: int, i: int)
    requires
        0 <= j <= i <= l.len(),
        forall|k: int| j <= k < i ==> #[trigger] season_token_at(l, k) is None,
    ensures
        first_season_token(l, j) == first_season_token(l, i),
    decreases i - j,
{
    if j < i {
        lemma_no_token_before(l, j + 1, i);
    }
}

/// A scene-style season folder: a title with no season token of its own (it
/// does not start with `s` or whitespace, and each `s` in it follows a
/// character other than `.`, `_`, `-` or a space), then `.s` and digits, then
/// `.` and anything, is the season those digits give.
pub proof fn law_scene_season_token(t: Seq<char>, ds: Seq<char>, y: Seq<char>)
    requires
        t.len() > 0,
        t[0] != 's',
        !crate::text::is_white(t[0]),
        forall|j: int|
            0 <= j < t.len() && #[trigger] t[j] == 's' ==> j > 0 && t[j - 1] != '.' && t[j - 1] != '_' && t[j - 1] != '-'
                && t[j - 1] != ' ',
        ds.len() > 0,
        forall|k: int| 0 <= k < ds.len() ==> '0' <= #[trigger] ds[k] <= '9',
        digits_val(ds, 0, ds.len()) <= i32::MAX,
    ensures
        season_folder_spec(t + ".s"@ + ds + "."@ + y) == Some(digits_val(ds, 0, ds.len())),
{
    reveal_strlit(".s");
    reveal_strlit(".");
    reveal_strlit("specials");
    reveal_strlit("season ");
    let l = t + ".s"@ + ds + "."@ + y;
    let tl = t.len() as int;
    let n = ds.len();
    let i = tl + 1;
    assert(l[0] == t[0]);
    assert(l[tl] == '.' && l[i] == 's');
    assert forall|k: int| 0 <= k < n implies l[i + 1 + k] == ds[k] by {}
    assert(l[i + 1 + n] == '.');
    // Not "specials", not "season N", not "sNN".
    assert(crate::text::lead_white(l) == 0);
    assert(trim_spec(l) != "specials"@) by {
        let tr = trim_spec(l);
        let a = l.skip(crate::text::lead_white(l) as int);
        assert(a =~= l);
        lemma_trail_white_le(a);
        if tr == "specials"@ {
            assert(tr.len() == 8);
            assert(tr == a.take(a.len() - crate::text::trail_white(a)));
            assert(tr[0] == a[0]);
            assert(tr[0] == l[0]);
        }
    }
    assert(!starts_with(l, "season "@)) by {
        if starts_with(l, "season "@) {
            assert(l.take(7)[0] == l[0]);
        }
    }
    // The token at `i`.
    assert forall|k: int| i + 1 <= k < i + 1 + n implies is_digit(#[trigger] l[k]) by {
        assert(l[k] == ds[k - i - 1]);
    }
    lemma_run_len(l, i + 1, i + 1 + n);
    assert(run_len(l, i + 1) == n);
    crate::text::lemma_same_digits(l, ds, i + 1, i + 1, n);
    assert(season_token_at(l, i) == Some(digits_val(ds, 0, n)));
    // No token before it.
    assert forall|k: int| 0 <= k < i implies #[trigger] season_token_at(l, k) is None by {
        if k < tl {
            assert(l[k] == t[k]);
            if t[k] == 's' {
                assert(l[k - 1] == t[k - 1]);
            }
        }
    }
    lemma_no_token_before(l, 0, i);
    assert(first_season_token(l, i) == Some(digits_val(ds, 0, n)));
}

/// Season number of a lowercased season-folder name.
pub fn season_of_folder(l: &[char]) -> (r: Option<i32>)
    ensures
        opt_view(r) == season_folder_spec(l@),
{
    let specials = chars_of("specials");
    let trimmed = trim_chars(l);
    if chars_eq(&trimmed, &specials) {
        return Some(0);
    }
    let season = chars_of("season ");
    if has_prefix(l, &season) {
        let (a, b) = trim_bounds(l, season.len(), l.len());
        proof {
            assert(l@.subrange(season@.len() as int, l@.len() as int) =~= l@.skip(
                season@.len() as int,
            ));
        }
        if let Some(n) = parse_i32(l, a, b) {
            return Some(n);
        }
    }
    if l.len() > 1 && l[0] == 's' {
        match read_episode_digits(l, 1) {
            Some((n, end)) => {
                if end == l.len() {
                    return Some(n);
                }
            },
            None => {
                proof {
                    lemma_run_all_digits(l@, 1);
                }
            },
        }
    }
    assert(season_folder_spec(l@) == first_season_token(l@, 0));
    let mut i: usize = 0;
    while i < l.len()
        invariant
            i <= l@.len(),
            season_folder_spec(l@) == first_season_token(l@, 0),
            first_season_token(l@, 0) == first_season_token(l@, i as int),
        decreases l.len() - i,
    {
        if l[i] == 's' && (i == 0 || l[i - 1] == '.' || l[i - 1] == '_' || l[i - 1] == '-'
            || l[i - 1] == ' ') {
            proof {
                lemma_run_all_digits(l@, i + 1);
            }
            let r = read_run_upto(l, i + 1, 0x7fff_ffff);
            let after = i + 1 + run_length(l, i + 1);
            let ep_follows = after < l.len() && l[after] == 'e' && run_length(l, after + 1) > 0;
            if after > i + 1 && !ep_follows {
                if let Some((v, _)) = r {
                    return Some(v as i32);
                }
            }
        }
        i += 1;
    }
    None
}

/// Length of the digit run at `pos`.
pub fn run_length(s: &[char], pos: usize) -> (n: usize)
    requires
        pos <= s@.len(),
    ensures
        n == run_len(s@, pos as int),
        pos + n <= s@.len(),
{
    let mut i = pos;
    while i < s.len() && is_ascii_digit(s[i])
        invariant
            pos <= i <= s@.len(),
            forall|k: int| pos <= k < i ==> is_digit(#[trigger] s@[k]),
        decreases s.len() - i,
    {
        i += 1;
    }
    proof {
        lemma_run_len(s@, pos as int, i as int);
    }
    i - pos
}

/// (the folder name unchanged, its season number).
pub fn parse_season_folder_name(name: &str) -> (r: (String, Option<i32>))
    ensures
        r.0@ == name@,
        opt_view(r.1) == season_folder_spec(lowercase_of(name@)),
        all_ascii(name@) ==> opt_view(r.1) == season_folder_spec(ascii_lower_seq(name@)),
{
    let lower = to_lowercase(name);
    let l = chars_of(lower.as_str());
    let n = season_of_folder(&l);
    (String::from_str(name), n)
}

// ---------------------------------------------------------------------------
// Track numbers, `Title (Year)` folders
// ---------------------------------------------------------------------------

pub open spec fn is_song_sep(c: char) -> bool {
    c == ' ' || c == '-' || c == '.'
}

/// Leading characters of `s` that are ` `, `-` or `.`.
pub open spec fn lead_song_sep(s: Seq<char>) -> nat
    decreases s.len(),
{
    if s.len() > 0 && is_song_sep(s[0]) {
        1 + lead_song_sep(s.drop_first())
    } else {
        0
    }
}

/// (title, track number) of a song file's stem: "01 - Title" / "01. Title".
pub open spec fn song_spec(stem: Seq<char>) -> (Seq<char>, Option<int>) {
    let n = run_len(stem, 0);
    let v = digits_val(stem, 0, n);
    if n > 0 && v <= i32::MAX {
        let rest = stem.skip(n as int);
        let t = rest.skip(lead_song_sep(rest) as int);
        (if t.len() == 0 {
            stem
        } else {
            t
        }, Some(v))
    } else {
        (stem, None)
    }
}

proof fn lemma_lead_song_sep(s: Seq<char>, i: int)
    requires
        0 <= i <= s.len(),
        forall|k: int| 0 <= k < i ==> is_song_sep(#[trigger] s[k]),
        i == s.len() || !is_song_sep(s[i]),
    ensures
        lead_song_sep(s) == i,
    decreases i,
{
    if i > 0 {
        let t = s.drop_first();
        assert forall|k: int| 0 <= k < i - 1 implies is_song_sep(#[trigger] t[k]) by {
            assert(t[k] == s[k + 1]);
        }
        if i - 1 < t.len() {
            assert(t[i - 1] == s[i]);
        }
        lemma_lead_song_sep(t, i - 1);
    }
}

/// Track number and title of a song stem.
pub fn song_of_stem(stem: &[char]) -> (r: (Vec<char>, Option<i32>))
    ensures
        (r.0@, opt_view(r.1)) == song_spec(stem@),
{
    proof {
        lemma_run_all_digits(stem@, 0);
    }
    match read_digit_run(stem, 0) {
        Some((v, end)) => {
            if end == 0 {
                return (copy_range(stem, 0, stem.len()), None);
            }
            let mut j = end;
            while j < stem.len() && (stem[j] == ' ' || stem[j] == '-' || stem[j] == '.')
                invariant
                    end <= j <= stem@.len(),
                    forall|k: int| end <= k < j ==> is_song_sep(#[trigger] stem@[k]),
                decreases stem.len() - j,
            {
                j += 1;
            }
            proof {
                let rest = stem@.skip(end as int);
                assert forall|k: int| 0 <= k < j - end implies is_song_sep(#[trigger] rest[k]) by {
                    assert(rest[k] == stem@[end + k]);
                }
                if j < stem@.len() {
                    assert(rest[j - end] == stem@[j as int]);
                }
                lemma_lead_song_sep(rest, j - end);
                assert(rest.skip(j - end) =~= stem@.subrange(j as int, stem@.len() as int));
                assert(stem@.subrange(0, stem@.len() as int) =~= stem@);
            }
            if j == stem.len() {
                (copy_range(stem, 0, stem.len()), Some(v))
            } else {
                (copy_range(stem, j, stem.len()), Some(v))
            }
        },
        None => {
            assert(stem@.subrange(0, stem@.len() as int) =~= stem@);
            (copy_range(stem, 0, stem.len()), None)
        },
    }
}

/// (title, track number) of a song filename.
pub fn parse_song_filename(name: &str) -> (r: (String, Option<i32>))
    ensures
        exists|stem: Seq<char>|
            {
                &&& (is_bare_name(name@) ==> stem == stem_rule(name@))
                &&& (names_file(name@) ==> stem == stem_rule(last_segment(name@)))
                &&& (r.0@, opt_view(r.1)) == song_spec(stem)
            },
{
    let stem = file_stem(name);
    let chars = chars_of(stem.as_str());
    let (title, n) = song_of_stem(&chars);
    (string_of(&title), n)
}

/// Index of the last occurrence of `c` in `s`.
pub open spec fn last_index_of(s: Seq<char>, c: char) -> Option<int>
    decreases s.len(),
{
    if s.len() == 0 {
        None
    } else if s.last() == c {
        Some(s.len() - 1)
    } else {
        last_index_of(s.drop_last(), c)
    }
}

/// The last `.` as `rfind` finds it is `last_dot`'s.
pub proof fn lemma_last_dot_eq(s: Seq<char>)
    ensures
        last_index_of(s, '.') == crate::text::last_dot(s),
    decreases s.len(),
{
    if s.len() > 0 {
        lemma_last_dot_eq(s.drop_last());
    }
}

/// (title, year) of a `Title (YYYY)` folder name; otherwise the whole name.
pub open spec fn folder_spec(s: Seq<char>) -> (Seq<char>, Option<Seq<char>>) {
    match (last_index_of(s, '('), last_index_of(s, ')')) {
        (Some(ps), Some(pe)) => {
            let y = s.subrange(ps + 1, pe);
            if pe > ps && y.len() == 4 && run_len(s, ps + 1) >= 4 {
                (trim_spec(s.take(ps)), Some(y))
            } else {
                (s, None)
            }
        },
        _ => (s, None),
    }
}

pub fn rfind(s: &[char], c: char) -> (r: Option<usize>)
    ensures
        match r {
            Some(i) => last_index_of(s@, c) == Some(i as int) && i < s@.len(),
            None => last_index_of(s@, c) is None,
        },
{
    let mut i = s.len();
    assert(s@.take(i as int) =~= s@);
    while i > 0
        invariant
            i <= s@.len(),
            last_index_of(s@, c) == last_index_of(s@.take(i as int), c),
        decreases i,
    {
        if s[i - 1] == c {
            proof {
                assert(s@.take(i as int).last() == c);
            }
            return Some(i - 1);
        }
        proof {
            assert(s@.take(i as int).drop_last() =~= s@.take(i - 1));
        }
        i -= 1;
    }
    proof {
        assert(s@.take(0) =~= Seq::<char>::empty());
    }
    None
}

/// Split `Title (YYYY)` into its title and year.
pub fn parse_folder_name(name: &str) -> (r: (String, Option<String>))
    ensures
        ({
            let (t, y) = folder_spec(name@);
            &&& r.0@ == t
            &&& match r.1 {
                Some(s) => y == Some(s@),
                None => y is None,
            }
        }),
{
    let s = chars_of(name);
    assert(s@.take(s@.len() as int) =~= s@);
    match (rfind(&s, '('), rfind(&s, ')')) {
        (Some(ps), Some(pe)) => {
            if pe > ps && pe - ps - 1 == 4 {
                let n = run_length(&s, ps + 1);
                if n >= 4 {
                    let (a, b) = trim_bounds(&s, 0, ps);
                    assert(s@.subrange(0, ps as int) =~= s@.take(ps as int));
                    return (string_of_range(&s, a, b), Some(string_of_range(&s, ps + 1, pe)));
                }
            }
            (String::from_str(name), None)
        },
        _ => (String::from_str(name), None),
    }
}

// ---------------------------------------------------------------------------
// Sort titles
// ---------------------------------------------------------------------------

/// Leading articles dropped for sorting, per language code.
pub open spec fn articles_spec(lang: Seq<char>) -> Seq<Seq<char>> {
    if lang == "en"@ {
        seq!["the "@, "a "@, "an "@]
    } else if lang == "fr"@ {
        seq!["le "@, "la "@, "les "@, "l'"@, "un "@, "une "@]
    } else if lang == "de"@ {
        seq!["der "@, "die "@, "das "@, "ein "@, "eine "@]
    } else if lang == "es"@ {
        seq!["el "@, "la "@, "los "@, "las "@, "un "@, "una "@]
    } else {
        seq![]
    }
}

/// `lower` without the first listed article it starts with (from index `k`).
pub open spec fn strip_article(lower: Seq<char>, arts: Seq<Seq<char>>, k: int) -> Seq<char>
    decreases arts.len() - k,
{
    if k < 0 || k >= arts.len() {
        lower
    } else if starts_with(lower, arts[k]) {
        lower.skip(arts[k].len() as int)
    } else {
        strip_article(lower, arts, k + 1)
    }
}

/// An English title that starts with "the ", "a " or "an " sorts by what
/// follows the article.
pub proof fn law_english_articles(rest: Seq<char>)
    ensures
        strip_article("the "@ + rest, articles_spec("en"@), 0) == rest,
        strip_article("a "@ + rest, articles_spec("en"@), 0) == rest,
        strip_article("an "@ + rest, articles_spec("en"@), 0) == rest,
{
    reveal_strlit("en");
    reveal_strlit("the ");
    reveal_strlit("a ");
    reveal_strlit("an ");
    let arts = articles_spec("en"@);
    let t = "the "@ + rest;
    let a = "a "@ + rest;
    let an = "an "@ + rest;
    assert(arts[0] == "the "@ && arts[1] == "a "@ && arts[2] == "an "@);
    assert(t.take(4) =~= "the "@);
    assert(t.skip(4) =~= rest);
    assert(!starts_with(a, "the "@)) by {
        if a.len() >= 4 {
            assert(a.take(4)[0] == 'a');
        }
    }
    assert(a.take(2) =~= "a "@);
    assert(a.skip(2) =~= rest);
    assert(!starts_with(an, "the "@)) by {
        if an.len() >= 4 {
            assert(an.take(4)[0] == 'a');
        }
    }
    assert(!starts_with(an, "a "@)) by {
        assert(an.take(2)[1] == 'n');
    }
    assert(an.take(3) =~= "an "@);
    assert(an.skip(3) =~= rest);
    assert(strip_article(a, arts, 0) == strip_article(a, arts, 1));
    assert(strip_article(an, arts, 0) == strip_article(an, arts, 1));
    assert(strip_article(an, arts, 1) == strip_article(an, arts, 2));
}

/// An ASCII English title starting with the word "A" (any case) gets the
/// sort key of the rest of the title: what `generate_sort_title` gives for
/// ASCII titles.
pub proof fn law_sort_title_drops_a(title: Seq<char>)
    requires
        all_ascii(title),
        title.len() >= 2,
        title[0] == 'a' || title[0] == 'A',
        title[1] == ' ',
    ensures
        strip_article(ascii_lower_seq(title), articles_spec("en"@), 0) == ascii_lower_seq(title.skip(2)),
{
    reveal_strlit("a ");
    let rest = ascii_lower_seq(title.skip(2));
    assert(ascii_lower_seq(title) =~= "a "@ + rest);
    law_english_articles(rest);
}

fn articles(lang: &[char]) -> (r: Vec<&'static str>)
    ensures
        r@.map_values(|e: &str| e@) == articles_spec(lang@),
{
    let en = chars_of("en");
    let fr = chars_of("fr");
    let de = chars_of("de");
    let es = chars_of("es");
    let r = if chars_eq(lang, &en) {
        vec!["the ", "a ", "an "]
    } else if chars_eq(lang, &fr) {
        vec!["le ", "la ", "les ", "l'", "un ", "une "]
    } else if chars_eq(lang, &de) {
        vec!["der ", "die ", "das ", "ein ", "eine "]
    } else if chars_eq(lang, &es) {
        vec!["el ", "la ", "los ", "las ", "un ", "una "]
    } else {
        vec![]
    };
    assert(r@.map_values(|e: &str| e@) =~= articles_spec(lang@));
    r
}

/// Sort key of a title: lowercased, without a leading article of `language`.
/// An ASCII title is lowercased letter by letter.
pub fn generate_sort_title(title: &str, language: &str) -> (r: String)
    ensures
        r@ == strip_article(lowercase_of(title@), articles_spec(language@), 0),
        crate::text::all_ascii(title@) ==> r@ == strip_article(ascii_lower_seq(title@), articles_spec(language@), 0),
{
    let lang = chars_of(language);
    let arts = articles(&lang);
    let ghost views = arts@.map_values(|e: &str| e@);
    let lower = to_lowercase(title);
    let l = chars_of(lower.as_str());
    let mut k: usize = 0;
    while k < arts.len()
        invariant
            k <= arts@.len(),
            views == arts@.map_values(|e: &str| e@),
            views == articles_spec(language@),
            l@ == lowercase_of(title@),
            crate::text::all_ascii(title@) ==> l@ == ascii_lower_seq(title@),
            strip_article(l@, views, 0) == strip_article(l@, views, k as int),
        decreases arts.len() - k,
    {
        let a = chars_of(arts[k]);
        assert(views[k as int] == a@);
        if has_prefix(&l, &a) {
            let out = string_of_range(&l, a.len(), l.len());
            assert(l@.subrange(a@.len() as int, l@.len() as int) =~= l@.skip(a@.len() as int));
            return out;
        }
        k += 1;
    }
    assert(l@.subrange(0, l@.len() as int) =~= l@);
    string_of(&l)
}

// ---------------------------------------------------------------------------
// Reserved and extras folders
// ---------------------------------------------------------------------------

pub open spec fn is_dir_junk(c: char) -> bool {
    c == '~' || c == '-' || c == '_' || c == ' ' || c == '.'
}

/// Leading `~ - _ space .` characters, which releases use to force sort
/// order on extras folders.
pub open spec fn lead_junk(s: Seq<char>) -> nat
    decreases s.len(),
{
    if s.len() > 0 && is_dir_junk(s[0]) {
        1 + lead_junk(s.drop_first())
    } else {
        0
    }
}

pub open spec fn strip_junk(s: Seq<char>) -> Seq<char> {
    s.skip(lead_junk(s) as int)
}

proof fn lemma_lead_junk(s: Seq<char>, i: int)
    requires
        0 <= i <= s.len(),
        forall|k: int| 0 <= k < i ==> is_dir_junk(#[trigger] s[k]),
        i == s.len() || !is_dir_junk(s[i]),
    ensures
        lead_junk(s) == i,
    decreases i,
{
    if i > 0 {
        let t = s.drop_first();
        assert forall|k: int| 0 <= k < i - 1 implies is_dir_junk(#[trigger] t[k]) by {
            assert(t[k] == s[k + 1]);
        }
        if i - 1 < t.len() {
            assert(t[i - 1] == s[i]);
        }
        lemma_lead_junk(t, i - 1);
    }
}

fn strip_junk_exec(s: &[char]) -> (r: Vec<char>)
    ensures
        r@ == strip_junk(s@),
{
    let mut j: usize = 0;
    while j < s.len() && (s[j] == '~' || s[j] == '-' || s[j] == '_' || s[j] == ' ' || s[j] == '.')
        invariant
            j <= s@.len(),
            forall|k: int| 0 <= k < j ==> is_dir_junk(#[trigger] s@[k]),
        decreases s.len() - j,
    {
        j += 1;
    }
    proof {
        lemma_lead_junk(s@, j as int);
    }
    assert(s@.subrange(j as int, s@.len() as int) =~= s@.skip(j as int));
    copy_range(s, j, s.len())
}

/// Folder names that never scan as entries or seasons.
pub open spec fn reserved_dirs_spec() -> Seq<Seq<char>> {
    seq![
        "covers"@, "backdrops"@, "extras"@, "featurettes"@, "behind the scenes"@,
        "deleted scenes"@, "interviews"@, "scenes"@, "samples"@, "shorts"@, "clips"@,
        "trailers"@, "other"@, "webisodes"@,
    ]
}

/// Reserved folders whose videos surface as playable extras.
pub open spec fn extra_dirs_spec() -> Seq<Seq<char>> {
    seq![
        "extras"@, "featurettes"@, "behind the scenes"@, "deleted scenes"@, "interviews"@,
        "scenes"@, "shorts"@, "clips"@, "trailers"@, "other"@, "webisodes"@,
    ]
}

pub fn reserved_dirs() -> (r: Vec<&'static str>)
    ensures
        r@.map_values(|e: &str| e@) == reserved_dirs_spec(),
{
    let r = vec![
        "covers",
        "backdrops",
        "extras",
        "featurettes",
        "behind the scenes",
        "deleted scenes",
        "interviews",
        "scenes",
        "samples",
        "shorts",
        "clips",
        "trailers",
        "other",
        "webisodes",
    ];
    assert(r@.map_values(|e: &str| e@) =~= reserved_dirs_spec());
    r
}

pub fn extra_dirs() -> (r: Vec<&'static str>)
    ensures
        r@.map_values(|e: &str| e@) == extra_dirs_spec(),
{
    let r = vec![
        "extras",
        "featurettes",
        "behind the scenes",
        "deleted scenes",
        "interviews",
        "scenes",
        "shorts",
        "clips",
        "trailers",
        "other",
        "webisodes",
    ];
    assert(r@.map_values(|e: &str| e@) =~= extra_dirs_spec());
    r
}

/// Normalized extras kind of a folder name ("~Featurettes" → "featurettes"),
/// or `None` when the folder is not an extras folder.
pub fn extra_kind_for_dir(name: &str) -> (r: Option<String>)
    ensures
        ({
            let k = strip_junk(lowercase_of(name@));
            match r {
                Some(s) => extra_dirs_spec().contains(k) && s@ == k,
                None => !extra_dirs_spec().contains(k),
            }
        }),
        all_ascii(name@) ==> ({
            let k = strip_junk(ascii_lower_seq(name@));
            match r {
                Some(s) => extra_dirs_spec().contains(k) && s@ == k,
                None => !extra_dirs_spec().contains(k),
            }
        }),
{
    let lower = to_lowercase(name);
    let l = chars_of(lower.as_str());
    let stripped = strip_junk_exec(&l);
    let dirs = extra_dirs();
    if contains_word(&dirs, &stripped) {
        Some(string_of(&stripped))
    } else {
        None
    }
}

/// A directory entry scans as a library entry (or season): a directory whose
/// name does not start with `.` and is not a reserved folder (ignoring the
/// leading sort-order junk).
pub fn is_scannable_dir(file_name: &str, is_dir: bool) -> (r: bool)
    ensures
        ({
            let raw = lowercase_of(file_name@);
            r == (is_dir && !(raw.len() > 0 && raw[0] == '.') && !reserved_dirs_spec().contains(
                strip_junk(raw),
            ))
        }),
        all_ascii(file_name@) ==> ({
            let raw = ascii_lower_seq(file_name@);
            r == (is_dir && !(raw.len() > 0 && raw[0] == '.') && !reserved_dirs_spec().contains(strip_junk(raw)))
        }),
{
    let lower = to_lowercase(file_name);
    let l = chars_of(lower.as_str());
    let stripped = strip_junk_exec(&l);
    let dirs = reserved_dirs();
    is_dir && !(l.len() > 0 && l[0] == '.') && !contains_word(&dirs, &stripped)
}

// ---------------------------------------------------------------------------
// File types
// ---------------------------------------------------------------------------

pub open spec fn video_extensions_spec() -> Seq<Seq<char>> {
    seq!["mkv"@, "mp4"@, "avi"@, "m4v"@, "mov"@, "wmv"@, "flv"@, "webm"@, "ts"@, "mpg"@, "mpeg"@]
}

pub open spec fn audio_extensions_spec() -> Seq<Seq<char>> {
    seq!["flac"@, "mp3"@, "m4a"@, "wav"@, "aac"@, "ogg"@, "opus"@, "wma"@, "aiff"@, "ape"@]
}

pub open spec fn image_extensions_spec() -> Seq<Seq<char>> {
    seq!["jpg"@, "jpeg"@, "png"@, "avif"@, "webp"@]
}

pub fn video_extensions() -> (r: Vec<&'static str>)
    ensures
        r@.map_values(|e: &str| e@) == video_extensions_spec(),
{
    let r = vec!["mkv", "mp4", "avi", "m4v", "mov", "wmv", "flv", "webm", "ts", "mpg", "mpeg"];
    assert(r@.map_values(|e: &str| e@) =~= video_extensions_spec());
    r
}

pub fn audio_extensions() -> (r: Vec<&'static str>)
    ensures
        r@.map_values(|e: &str| e@) == audio_extensions_spec(),
{
    let r = vec!["flac", "mp3", "m4a", "wav", "aac", "ogg", "opus", "wma", "aiff", "ape"];
    assert(r@.map_values(|e: &str| e@) =~= audio_extensions_spec());
    r
}

pub fn image_extensions() -> (r: Vec<&'static str>)
    ensures
        r@.map_values(|e: &str| e@) == image_extensions_spec(),
{
    let r = vec!["jpg", "jpeg", "png", "avif", "webp"];
    assert(r@.map_values(|e: &str| e@) =~= image_extensions_spec());
    r
}

/// A regular file whose extension, lowercased, is one of `extensions`.
pub fn is_media_file(is_file: bool, extension: Option<&str>, extensions: &[&str]) -> (r: bool)
    ensures
        r == (is_file && match extension {
            Some(e) => extensions@.map_values(|x: &str| x@).contains(lowercase_of(e@)),
            None => false,
        }),
        match extension {
            Some(e) => all_ascii(e@) ==> r == (is_file && extensions@.map_values(|x: &str| x@).contains(ascii_lower_seq(e@))),
            None => true,
        },
{
    if !is_file {
        return false;
    }
    match extension {
        Some(e) => {
            let lower = to_lowercase(e);
            let l = chars_of(lower.as_str());
            contains_word(extensions, &l)
        },
        None => false,
    }
}

/// An image file by extension (jpg, jpeg, png, avif, webp; any case).
pub fn is_image_file(extension: Option<&str>) -> (r: bool)
    ensures
        r == match extension {
            Some(e) => image_extensions_spec().contains(lowercase_of(e@)),
            None => false,
        },
        match extension {
            Some(e) => all_ascii(e@) ==> r == image_extensions_spec().contains(ascii_lower_seq(e@)),
            None => true,
        },
{
    let exts = image_extensions();
    match extension {
        Some(e) => {
            let lower = to_lowercase(e);
            let l = chars_of(lower.as_str());
            contains_word(&exts, &l)
        },
        None => false,
    }
}

/// MIME type served for an image extension (ASCII case-insensitive); any
/// other extension is refused.
pub open spec fn mime_spec(ext: Seq<char>) -> Option<Seq<char>> {
    let e = ascii_lower_seq(ext);
    if e == "jpg"@ || e == "jpeg"@ {
        Some("image/jpeg"@)
    } else if e == "png"@ {
        Some("image/png"@)
    } else if e == "webp"@ {
        Some("image/webp"@)
    } else if e == "gif"@ {
        Some("image/gif"@)
    } else if e == "bmp"@ {
        Some("image/bmp"@)
    } else if e == "avif"@ {
        Some("image/avif"@)
    } else {
        None
    }
}

pub fn mime_for(extension: Option<&str>) -> (r: Option<&'static str>)
    ensures
        match extension {
            Some(e) => match r {
                Some(m) => mime_spec(e@) == Some(m@),
                None => mime_spec(e@) is None,
            },
            None => r is None,
        },
{
    let e = match extension {
        Some(e) => e,
        None => return None,
    };
    let c = chars_of(e);
    let l = ascii_lowercase(&c);
    if chars_eq(&l, &chars_of("jpg")) || chars_eq(&l, &chars_of("jpeg")) {
        Some("image/jpeg")
    } else if chars_eq(&l, &chars_of("png")) {
        Some("image/png")
    } else if chars_eq(&l, &chars_of("webp")) {
        Some("image/webp")
    } else if chars_eq(&l, &chars_of("gif")) {
        Some("image/gif")
    } else if chars_eq(&l, &chars_of("bmp")) {
        Some("image/bmp")
    } else if chars_eq(&l, &chars_of("avif")) {
        Some("image/avif")
    } else {
        None
    }
}

/// What `percent_encoding::percent_decode_str(s).decode_utf8_lossy()`
/// gives: every `%` followed by two hex digits becomes that byte, and the
/// bytes are read as UTF-8 with each invalid sequence replaced by U+FFFD.
pub uninterp spec fn percent_decoded(s: Seq<char>) -> Seq<char>;

/// `percent_encoding::percent_decode_str(s).decode_utf8_lossy()`, owned.
/// Claimed: the result is `percent_decoded` of the input (a function of the
/// characters alone); the decoding itself is not stated.
#[verifier::external_body]
fn percent_decode_lossy(s: &str) -> (r: String)
    ensures
        r@ == percent_decoded(s@),
{
    percent_encoding::percent_decode_str(s).decode_utf8_lossy().into_owned()
}

/// `s` without one leading `/`.
pub open spec fn strip_slash(s: Seq<char>) -> Seq<char> {
    if s.len() > 0 && s[0] == '/' {
        s.drop_first()
    } else {
        s
    }
}

/// The file path an image request names: the request's path without its
/// leading `/`, percent-decoded.
pub fn request_path(raw: &str) -> (r: String)
    ensures
        r@ == percent_decoded(strip_slash(raw@)),
{
    let c = chars_of(raw);
    if c.len() > 0 && c[0] == '/' {
        let rest = string_of_range(&c, 1, c.len());
        proof {
            assert(c@.subrange(1, c@.len() as int) =~= c@.drop_first());
        }
        percent_decode_lossy(rest.as_str())
    } else {
        percent_decode_lossy(raw)
    }
}

/// An image request is served only for an absolute path that does not climb
/// (`..`) and has an image extension: the content type to send, or none
/// (refused).
pub fn servable_image(extension: Option<&str>, absolute: bool, climbs: bool) -> (r: Option<&'static str>)
    ensures
        !absolute || climbs ==> r is None,
        absolute && !climbs ==> match extension {
            Some(e) => match r {
                Some(m) => mime_spec(e@) == Some(m@),
                None => mime_spec(e@) is None,
            },
            None => r is None,
        },
{
    let mime = mime_for(extension);
    if climbs || !absolute {
        None
    } else {
        mime
    }
}

} // verus!
