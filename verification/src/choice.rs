//! Moments and choices as the playback engine presents them: which moments
//! are choices, their display windows, where a pick leads, and the labels
//! shown for image-only choices.

use vstd::prelude::*;
use crate::interactive::{Choice, Moment};
use crate::json::{member_spec, Json, JsonValue};
use crate::naming::{last_index_of, rfind};
use crate::text::{
    chars_of, decimal_int, has_prefix, is_ascii_digit, is_digit, lowercase_of, push_char,
    push_decimal, push_decimal_i64, push_chars, starts_with, string_of, string_of_range, to_lowercase,
    trim_chars, trim_spec,
};

verus! {

/// A choice moment: its type starts with `scene:` and it carries choices.
pub open spec fn is_choice_spec(m: Moment) -> bool {
    &&& m.kind matches Some(k) && starts_with(k@, "scene:"@)
    &&& m.choices matches Some(c) && c@.len() > 0
}

pub fn moment_is_choice(m: &Moment) -> (b: bool)
    ensures
        b == is_choice_spec(*m),
{
    let scene = match &m.kind {
        Some(k) => {
            let kc = chars_of(k.as_str());
            let p = chars_of("scene:");
            has_prefix(&kc, &p)
        },
        None => false,
    };
    let has_choices = match &m.choices {
        Some(c) => c.len() > 0,
        None => false,
    };
    scene && has_choices
}

/// Display window of a moment in video-absolute ms: from `uiDisplayMS` (else
/// `startMs`) to `uiHideMS` (else `endMs`), when both are known and the end
/// comes after the start.
pub open spec fn window_spec(m: Moment) -> Option<(i64, i64)> {
    let start = match m.ui_display_ms {
        Some(s) => Some(s),
        None => m.start_ms,
    };
    let end = match m.ui_hide_ms {
        Some(e) => Some(e),
        None => m.end_ms,
    };
    match (start, end) {
        (Some(s), Some(e)) => if e > s {
            Some((s, e))
        } else {
            None
        },
        _ => None,
    }
}

pub fn moment_window(m: &Moment) -> (r: Option<(i64, i64)>)
    ensures
        r == window_spec(*m),
{
    let start = match m.ui_display_ms {
        Some(s) => s,
        None => match m.start_ms {
            Some(s) => s,
            None => {
                return None;
            },
        },
    };
    let end = match m.ui_hide_ms {
        Some(e) => e,
        None => match m.end_ms {
            Some(e) => e,
            None => {
                return None;
            },
        },
    };
    if end > start {
        Some((start, end))
    } else {
        None
    }
}

/// Where a pick leads: its segment id, else its segment group.
pub open spec fn target_spec(c: Choice) -> Option<Seq<char>> {
    match c.segment_id {
        Some(s) => Some(s@),
        None => match c.sg {
            Some(g) => Some(g@),
            None => None,
        },
    }
}

pub fn choice_target(c: &Choice) -> (r: Option<String>)
    ensures
        match r {
            Some(s) => target_spec(*c) == Some(s@),
            None => target_spec(*c) is None,
        },
{
    match &c.segment_id {
        Some(s) => Some(s.clone()),
        None => match &c.sg {
            Some(g) => Some(g.clone()),
            None => None,
        },
    }
}

/// The part after the last `/` (the whole string when there is none).
pub open spec fn after_last_slash(s: Seq<char>) -> Seq<char> {
    match last_index_of(s, '/') {
        Some(i) => s.subrange(i + 1, s.len() as int),
        None => s,
    }
}

/// The string member `key` of node `v`.
pub open spec fn str_member(v: Option<Json>, key: Seq<char>) -> Option<Seq<char>> {
    match v {
        Some(n) => match member_spec(n, key) {
            Some(Json::Str(s)) => Some(s),
            _ => None,
        },
        None => None,
    }
}

/// The image node of a choice's art: `background.visualStates.default.image`.
pub open spec fn art_image(c: Choice) -> Option<Json> {
    match c.background {
        Some(bg) => match member_spec(bg@, "visualStates"@) {
            Some(vs) => match member_spec(vs, "default"@) {
                Some(d) => member_spec(d, "image"@),
                None => None,
            },
            None => None,
        },
        None => None,
    }
}

/// (sprite base name lowercased, backgroundSize, backgroundPosition) of a
/// choice's art, when it has an image with a string `url`.
pub open spec fn art_spec(c: Choice) -> Option<(Seq<char>, Option<Seq<char>>, Option<Seq<char>>)> {
    match art_image(c) {
        Some(image) => match member_spec(image, "url"@) {
            Some(Json::Str(url)) => {
                let styles = member_spec(image, "styles"@);
                Some(
                    (
                        lowercase_of(after_last_slash(url)),
                        str_member(styles, "backgroundSize"@),
                        str_member(styles, "backgroundPosition"@),
                    ),
                )
            },
            _ => None,
        },
        None => None,
    }
}

fn string_member(v: Option<&JsonValue>, key: &str) -> (r: Option<String>)
    ensures
        match r {
            Some(s) => str_member(
                match v {
                    Some(n) => Some(n@),
                    None => None,
                },
                key@,
            ) == Some(s@),
            None => str_member(
                match v {
                    Some(n) => Some(n@),
                    None => None,
                },
                key@,
            ) is None,
        },
{
    match v {
        Some(n) => match n.get(key) {
            Some(x) => match x.as_str() {
                Some(s) => Some(s.to_string()),
                None => None,
            },
            None => None,
        },
        None => None,
    }
}

/// The sprite base name (lowercased), size and position of a choice's art.
pub fn choice_art(c: &Choice) -> (r: Option<(String, Option<String>, Option<String>)>)
    ensures
        match art_spec(*c) {
            Some((base, size, pos)) => r matches Some((b, s, p)) && b@ == base && match s {
                Some(x) => size == Some(x@),
                None => size is None,
            } && match p {
                Some(x) => pos == Some(x@),
                None => pos is None,
            },
            None => r is None,
        },
{
    let bg = match &c.background {
        Some(bg) => bg,
        None => {
            return None;
        },
    };
    let vs = match bg.get("visualStates") {
        Some(v) => v,
        None => {
            return None;
        },
    };
    let d = match vs.get("default") {
        Some(v) => v,
        None => {
            return None;
        },
    };
    let image = match d.get("image") {
        Some(v) => v,
        None => {
            return None;
        },
    };
    let url = match image.get("url") {
        Some(u) => match u.as_str() {
            Some(s) => s,
            None => {
                return None;
            },
        },
        None => {
            return None;
        },
    };
    let uc = chars_of(url);
    let tail = match rfind(&uc, '/') {
        Some(i) => {
            let n = uc.len();
            string_of_range(&uc, i + 1, n)
        },
        None => string_of(&uc),
    };
    let base = to_lowercase(tail.as_str());
    let styles = image.get("styles");
    let size = string_member(styles, "backgroundSize");
    let position = string_member(styles, "backgroundPosition");
    Some((base, size, position))
}

// ---------------------------------------------------------------------------
// Labels derived from sprite names
// ---------------------------------------------------------------------------

/// The part before the first `.` (the whole string when there is none).
pub open spec fn before_first_dot(s: Seq<char>) -> Seq<char>
    decreases s.len(),
{
    if s.len() == 0 {
        s
    } else if s[0] == '.' {
        Seq::empty()
    } else {
        seq![s[0]] + before_first_dot(s.drop_first())
    }
}

pub open spec fn is_word_sep(c: char) -> bool {
    c == '_' || c == '-'
}

/// `s` split at every `_` and `-` (empty pieces included).
pub open spec fn split_words(s: Seq<char>) -> Seq<Seq<char>>
    decreases s.len(),
{
    if s.len() == 0 {
        seq![Seq::empty()]
    } else {
        let w = split_words(s.drop_last());
        if is_word_sep(s.last()) {
            w.push(Seq::empty())
        } else {
            w.update(w.len() - 1, w.last().push(s.last()))
        }
    }
}

pub open spec fn all_digits(w: Seq<char>) -> bool {
    forall|i: int| 0 <= i < w.len() ==> is_digit(#[trigger] w[i])
}

/// A piece that names something: not empty, not a resolution or revision
/// marker, not a bare number.
pub open spec fn keep_word(w: Seq<char>) -> bool {
    w.len() > 0 && w != "2x"@ && w != "update"@ && !all_digits(w)
}

pub open spec fn kept_words(ws: Seq<Seq<char>>) -> Seq<Seq<char>>
    decreases ws.len(),
{
    if ws.len() == 0 {
        Seq::empty()
    } else if keep_word(ws.last()) {
        kept_words(ws.drop_last()).push(ws.last())
    } else {
        kept_words(ws.drop_last())
    }
}

/// The words joined by single spaces.
pub open spec fn join_spaced(ws: Seq<Seq<char>>) -> Seq<char>
    decreases ws.len(),
{
    if ws.len() == 0 {
        Seq::empty()
    } else if ws.len() == 1 {
        ws[0]
    } else {
        join_spaced(ws.drop_last()) + seq![' '] + ws.last()
    }
}

/// What `str::to_uppercase` returns for these characters (Unicode uppercase
/// mapping).
pub uninterp spec fn uppercase_of(s: Seq<char>) -> Seq<char>;

/// ASCII uppercase of one character; every other character is unchanged.
pub open spec fn ascii_upper(c: char) -> char {
    if 'a' <= c && c <= 'z' {
        ((c as int) - 32) as char
    } else {
        c
    }
}

/// Each character of `s` in ASCII uppercase.
pub open spec fn ascii_upper_seq(s: Seq<char>) -> Seq<char> {
    Seq::new(s.len(), |i: int| ascii_upper(s[i]))
}

/// `str::to_uppercase`. Claimed: the result is `uppercase_of` of the input,
/// and on ASCII input each letter `a`..`z` becomes its uppercase letter and
/// every other character stays (the Unicode uppercase mapping on ASCII);
/// nothing more is stated of the mapping beyond ASCII.
#[verifier::external_body]
fn to_uppercase(s: &str) -> (r: String)
    ensures
        r@ == uppercase_of(s@),
        crate::text::all_ascii(s@) ==> r@ == ascii_upper_seq(s@),
{
    s.to_uppercase()
}

/// The label a sprite name gives before uppercasing: its stem split at `_`
/// and `-`, marker pieces dropped, joined by spaces.
pub open spec fn art_words(base: Seq<char>) -> Seq<char> {
    join_spaced(kept_words(split_words(before_first_dot(base))))
}

/// Human label from a sprite file name ("netflix_2x.png" gives "NETFLIX").
pub open spec fn label_spec(base: Seq<char>) -> Seq<char> {
    uppercase_of(art_words(base))
}

fn word_is_kept(w: &Vec<char>) -> (b: bool)
    ensures
        b == keep_word(w@),
{
    if w.len() == 0 {
        return false;
    }
    let two_x = chars_of("2x");
    let update = chars_of("update");
    if crate::text::chars_eq(w, &two_x) || crate::text::chars_eq(w, &update) {
        return false;
    }
    let mut i: usize = 0;
    while i < w.len()
        invariant
            i <= w@.len(),
            forall|k: int| 0 <= k < i ==> is_digit(#[trigger] w@[k]),
            w@.len() > 0,
            w@ != "2x"@,
            w@ != "update"@,
        decreases w.len() - i,
    {
        if !is_ascii_digit(w[i]) {
            assert(!is_digit(w@[i as int]));
            return true;
        }
        i += 1;
    }
    false
}

proof fn lemma_before_first_dot(s: Seq<char>, i: int)
    requires
        0 <= i <= s.len(),
        forall|k: int| 0 <= k < i ==> s[k] != '.',
    ensures
        i == s.len() ==> before_first_dot(s) == s,
        i < s.len() && s[i] == '.' ==> before_first_dot(s) == s.take(i),
    decreases s.len(),
{
    if s.len() > 0 && i > 0 {
        lemma_before_first_dot(s.drop_first(), i - 1);
        if i == s.len() {
            assert(seq![s[0]] + s.drop_first() =~= s);
        } else if s[i] == '.' {
            assert(seq![s[0]] + s.drop_first().take(i - 1) =~= s.take(i));
        }
    } else if s.len() > 0 && i == 0 && s[0] == '.' {
        assert(s.take(0) =~= Seq::<char>::empty());
    }
}

proof fn lemma_before_first_dot_ascii(s: Seq<char>)
    requires
        crate::text::all_ascii(s),
    ensures
        crate::text::all_ascii(before_first_dot(s)),
    decreases s.len(),
{
    if s.len() > 0 && s[0] != '.' {
        let t = s.drop_first();
        assert forall|i: int| 0 <= i < t.len() implies (t[i] as u32) < 128 by {
            assert(t[i] == s[i + 1]);
        }
        lemma_before_first_dot_ascii(t);
        let r = seq![s[0]] + before_first_dot(t);
        assert forall|i: int| 0 <= i < r.len() implies (r[i] as u32) < 128 by {
            if i > 0 {
                assert(r[i] == before_first_dot(t)[i - 1]);
            }
        }
    }
}

proof fn lemma_split_words_ascii(s: Seq<char>)
    requires
        crate::text::all_ascii(s),
    ensures
        forall|k: int| 0 <= k < split_words(s).len() ==> crate::text::all_ascii(#[trigger] split_words(s)[k]),
        split_words(s).len() > 0,
    decreases s.len(),
{
    if s.len() > 0 {
        let t = s.drop_last();
        assert forall|i: int| 0 <= i < t.len() implies (t[i] as u32) < 128 by {
            assert(t[i] == s[i]);
        }
        lemma_split_words_ascii(t);
        let w = split_words(t);
        if !is_word_sep(s.last()) {
            let lw = w.last().push(s.last());
            assert(crate::text::all_ascii(w[w.len() - 1]));
            assert forall|i: int| 0 <= i < lw.len() implies (lw[i] as u32) < 128 by {
                if i < lw.len() - 1 {
                    assert(lw[i] == w.last()[i]);
                } else {
                    assert(lw[i] == s[s.len() - 1]);
                }
            }
            let u = w.update(w.len() - 1, lw);
            assert forall|k: int| 0 <= k < u.len() implies crate::text::all_ascii(#[trigger] u[k]) by {
                if k < w.len() - 1 {
                    assert(u[k] == w[k]);
                }
            }
        } else {
            let u = w.push(Seq::<char>::empty());
            assert forall|k: int| 0 <= k < u.len() implies crate::text::all_ascii(#[trigger] u[k]) by {
                if k < w.len() {
                    assert(u[k] == w[k]);
                }
            }
        }
    }
}

proof fn lemma_kept_words_ascii(ws: Seq<Seq<char>>)
    requires
        forall|k: int| 0 <= k < ws.len() ==> crate::text::all_ascii(#[trigger] ws[k]),
    ensures
        forall|k: int| 0 <= k < kept_words(ws).len() ==> crate::text::all_ascii(#[trigger] kept_words(ws)[k]),
    decreases ws.len(),
{
    if ws.len() > 0 {
        let t = ws.drop_last();
        assert forall|k: int| 0 <= k < t.len() implies crate::text::all_ascii(#[trigger] t[k]) by {
            assert(t[k] == ws[k]);
        }
        lemma_kept_words_ascii(t);
        if keep_word(ws.last()) {
            let u = kept_words(t).push(ws.last());
            assert(crate::text::all_ascii(ws[ws.len() - 1]));
            assert forall|k: int| 0 <= k < u.len() implies crate::text::all_ascii(#[trigger] u[k]) by {
                if k < kept_words(t).len() {
                    assert(u[k] == kept_words(t)[k]);
                }
            }
        }
    }
}

proof fn lemma_join_spaced_ascii(ws: Seq<Seq<char>>)
    requires
        forall|k: int| 0 <= k < ws.len() ==> crate::text::all_ascii(#[trigger] ws[k]),
    ensures
        crate::text::all_ascii(join_spaced(ws)),
    decreases ws.len(),
{
    if ws.len() == 1 {
        assert(crate::text::all_ascii(ws[0]));
    } else if ws.len() > 1 {
        let t = ws.drop_last();
        assert forall|k: int| 0 <= k < t.len() implies crate::text::all_ascii(#[trigger] t[k]) by {
            assert(t[k] == ws[k]);
        }
        lemma_join_spaced_ascii(t);
        let a = join_spaced(t);
        let l = ws.last();
        assert(crate::text::all_ascii(ws[ws.len() - 1]));
        let r = a + seq![' '] + l;
        assert forall|i: int| 0 <= i < r.len() implies (r[i] as u32) < 128 by {
            if i < a.len() {
                assert(r[i] == a[i]);
            } else if i == a.len() {
                assert(r[i] == ' ');
            } else {
                assert(r[i] == l[i - a.len() - 1]);
            }
        }
    }
}

/// The words of an ASCII sprite name are ASCII.
proof fn lemma_art_words_ascii(base: Seq<char>)
    requires
        crate::text::all_ascii(base),
    ensures
        crate::text::all_ascii(art_words(base)),
{
    lemma_before_first_dot_ascii(base);
    let stem = before_first_dot(base);
    lemma_split_words_ascii(stem);
    lemma_kept_words_ascii(split_words(stem));
    lemma_join_spaced_ascii(kept_words(split_words(stem)));
}

/// Human label derived from a sprite file name, the fallback when the local
/// asset pack lacks the file ("netflix_2x.png" gives "NETFLIX"); for an
/// ASCII name the label is its words in ASCII uppercase.
pub fn label_from_art(base: &str) -> (r: String)
    ensures
        r@ == label_spec(base@),
        crate::text::all_ascii(base@) ==> r@ == ascii_upper_seq(art_words(base@)),
{
    let b = chars_of(base);
    // The stem: up to the first '.'.
    let mut stem_end: usize = 0;
    while stem_end < b.len() && b[stem_end] != '.'
        invariant
            stem_end <= b@.len(),
            forall|k: int| 0 <= k < stem_end ==> b@[k] != '.',
        decreases b.len() - stem_end,
    {
        stem_end += 1;
    }
    proof {
        lemma_before_first_dot(b@, stem_end as int);
        assert(b@.take(b@.len() as int) =~= b@);
    }
    let ghost stem = b@.take(stem_end as int);
    assert(before_first_dot(base@) == stem);
    let mut out = String::new();
    let mut cur: Vec<char> = Vec::new();
    let ghost mut done: Seq<Seq<char>> = Seq::empty();
    let mut any_kept = false;
    let mut i: usize = 0;
    while i < stem_end
        invariant
            i <= stem_end <= b@.len(),
            stem == b@.take(stem_end as int),
            split_words(stem.take(i as int)) == done.push(cur@),
            out@ == join_spaced(kept_words(done)),
            any_kept == (kept_words(done).len() > 0),
        decreases stem_end - i,
    {
        let c = b[i];
        proof {
            assert(stem.take(i + 1).drop_last() =~= stem.take(i as int));
            assert(stem.take(i + 1).last() == c);
        }
        if c == '_' || c == '-' {
            if word_is_kept(&cur) {
                if any_kept {
                    push_char(&mut out, ' ');
                }
                push_chars(&mut out, &cur);
                any_kept = true;
                proof {
                    let kd = kept_words(done);
                    assert((done.push(cur@)).drop_last() =~= done);
                    assert(kept_words(done.push(cur@)) == kd.push(cur@));
                    if kd.len() > 0 {
                        assert(kd.push(cur@).drop_last() =~= kd);
                    } else {
                        assert(kd.push(cur@) =~= seq![cur@]);
                    }
                }
            } else {
                proof {
                    assert((done.push(cur@)).drop_last() =~= done);
                }
            }
            proof {
                done = done.push(cur@);
            }
            cur = Vec::new();
            proof {
                assert(split_words(stem.take(i + 1)) =~= done.push(cur@));
            }
        } else {
            let ghost old_cur = cur@;
            cur.push(c);
            proof {
                let w = split_words(stem.take(i as int));
                assert(w =~= done.push(old_cur));
                assert(split_words(stem.take(i + 1)) =~= done.push(cur@));
            }
        }
        i += 1;
    }
    // The last piece.
    if word_is_kept(&cur) {
        if any_kept {
            push_char(&mut out, ' ');
        }
        push_chars(&mut out, &cur);
        proof {
            let kd = kept_words(done);
            assert((done.push(cur@)).drop_last() =~= done);
            assert(kept_words(done.push(cur@)) == kd.push(cur@));
            if kd.len() > 0 {
                assert(kd.push(cur@).drop_last() =~= kd);
            } else {
                assert(kd.push(cur@) =~= seq![cur@]);
            }
        }
    } else {
        proof {
            assert((done.push(cur@)).drop_last() =~= done);
        }
    }
    proof {
        assert(stem.take(stem_end as int) =~= stem);
        let fin = done.push(cur@);
        assert(split_words(stem) == fin);
        assert(out@ == join_spaced(kept_words(fin)));
        assert(art_words(base@) == out@);
        if crate::text::all_ascii(base@) {
            lemma_art_words_ascii(base@);
        }
    }
    to_uppercase(out.as_str())
}

/// Display label of a choice: its text when not blank, else the label its
/// art gives when not empty, else its id (empty when it has none).
pub open spec fn label_of_choice(c: Choice) -> Seq<char> {
    match c.text {
        Some(t) if trim_spec(t@).len() > 0 => t@,
        _ => match art_spec(c) {
            Some((base, _, _)) if label_spec(base).len() > 0 => label_spec(base),
            _ => match c.id {
                Some(id) => id@,
                None => Seq::empty(),
            },
        },
    }
}

pub fn choice_label(c: &Choice) -> (r: String)
    ensures
        r@ == label_of_choice(*c),
{
    if let Some(text) = &c.text {
        let tc = chars_of(text.as_str());
        let trimmed = trim_chars(&tc);
        if trimmed.len() > 0 {
            return text.clone();
        }
    }
    if let Some((base, _, _)) = choice_art(c) {
        let label = label_from_art(base.as_str());
        if label.unicode_len() > 0 {
            return label;
        }
    }
    match &c.id {
        Some(id) => id.clone(),
        None => String::new(),
    }
}

// ---------------------------------------------------------------------------
// Clock text
// ---------------------------------------------------------------------------

/// Integer division truncating toward zero, as Rust's `/` on integers.
pub open spec fn tdiv(a: int, b: int) -> int {
    if a >= 0 {
        a / b
    } else {
        -((-a) / b)
    }
}

/// Remainder of `tdiv`, as Rust's `%` on integers (sign of the dividend).
pub open spec fn trem(a: int, b: int) -> int {
    a - b * tdiv(a, b)
}

/// `{:02}`: at least two characters, zero-padded after the sign.
pub open spec fn pad2(v: int) -> Seq<char> {
    if 0 <= v < 10 {
        seq!['0'] + decimal_int(v)
    } else {
        decimal_int(v)
    }
}

/// `h:mm:ss` of a millisecond count (fields as Rust's integer division
/// gives them, so a negative count shows negative fields).
pub open spec fn fmt_ms_spec(ms: int) -> Seq<char> {
    let total = tdiv(ms, 1000);
    decimal_int(tdiv(total, 3600)) + seq![':'] + pad2(trem(tdiv(total, 60), 60)) + seq![':'] + pad2(
        trem(total, 60),
    )
}

fn push_pad2(out: &mut String, v: i64)
    requires
        -60 < v < 60,
    ensures
        final(out)@ == old(out)@ + pad2(v as int),
{
    if 0 <= v && v < 10 {
        push_char(out, '0');
    }
    push_decimal_i64(out, v);
}

/// Format a millisecond count as `h:mm:ss`.
pub fn fmt_ms(ms: i64) -> (r: String)
    ensures
        r@ == fmt_ms_spec(ms as int),
{
    // Work on the magnitude; Rust's division truncates toward zero.
    let neg = ms < 0;
    let a: u64 = if ms == i64::MIN {
        0x8000_0000_0000_0000u64
    } else if neg {
        (-ms) as u64
    } else {
        ms as u64
    };
    let t: u64 = a / 1000;
    let h: u64 = t / 3600;
    let m: u64 = (t / 60) % 60;
    let s: u64 = t % 60;
    proof {
        let total = tdiv(ms as int, 1000);
        assert(total == if neg { -(t as int) } else { t as int });
        assert(tdiv(total, 3600) == if neg { -(h as int) } else { h as int });
        assert(tdiv(total, 60) == if neg { -((t / 60) as int) } else { (t / 60) as int });
        assert(trem(tdiv(total, 60), 60) == if neg { -(m as int) } else { m as int });
        assert(trem(total, 60) == if neg { -(s as int) } else { s as int });
    }
    let hs: i64 = if neg { -(h as i64) } else { h as i64 };
    let ms_: i64 = if neg { -(m as i64) } else { m as i64 };
    let ss: i64 = if neg { -(s as i64) } else { s as i64 };
    let mut out = String::new();
    push_decimal_i64(&mut out, hs);
    push_char(&mut out, ':');
    push_pad2(&mut out, ms_);
    push_char(&mut out, ':');
    push_pad2(&mut out, ss);
    proof {
        assert(out@ =~= fmt_ms_spec(ms as int));
    }
    out
}

} // verus!
