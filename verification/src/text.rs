//! Character-level helpers shared by the parsers: views of strings as
//! character sequences, ASCII classes, Unicode whitespace trimming, decimal
//! reading and writing.

use vstd::prelude::*;

verus! {

/// `c` is one of '0'..='9'.
pub open spec fn is_digit(c: char) -> bool {
    '0' <= c && c <= '9'
}

/// Numeric value of an ASCII digit.
pub open spec fn digit_value(c: char) -> int {
    (c as int) - ('0' as int)
}

/// Unicode `White_Space`, the class `char::is_whitespace` and `str::trim` use.
pub open spec fn is_white(c: char) -> bool {
    ||| ('\u{9}' <= c && c <= '\u{d}')
    ||| c == ' '
    ||| c == '\u{85}'
    ||| c == '\u{a0}'
    ||| c == '\u{1680}'
    ||| ('\u{2000}' <= c && c <= '\u{200a}')
    ||| c == '\u{2028}'
    ||| c == '\u{2029}'
    ||| c == '\u{202f}'
    ||| c == '\u{205f}'
    ||| c == '\u{3000}'
}

/// ASCII lowercase of one character; every other character is unchanged.
pub open spec fn ascii_lower(c: char) -> char {
    if 'A' <= c && c <= 'Z' {
        ((c as int) + 32) as char
    } else {
        c
    }
}

pub open spec fn ascii_lower_seq(s: Seq<char>) -> Seq<char> {
    Seq::new(s.len(), |i: int| ascii_lower(s[i]))
}

/// Number of leading characters of `s` satisfying `is_white`.
pub open spec fn lead_white(s: Seq<char>) -> nat
    decreases s.len(),
{
    if s.len() > 0 && is_white(s[0]) {
        1 + lead_white(s.drop_first())
    } else {
        0
    }
}

/// Number of trailing characters of `s` satisfying `is_white`.
pub open spec fn trail_white(s: Seq<char>) -> nat
    decreases s.len(),
{
    if s.len() > 0 && is_white(s.last()) {
        1 + trail_white(s.drop_last())
    } else {
        0
    }
}

/// `s` without leading and trailing Unicode whitespace.
pub open spec fn trim_spec(s: Seq<char>) -> Seq<char> {
    let a = s.skip(lead_white(s) as int);
    a.take(a.len() - trail_white(a))
}

/// Length of the run of ASCII digits starting at `pos`.
pub open spec fn run_len(s: Seq<char>, pos: int) -> nat
    decreases s.len() - pos,
{
    if 0 <= pos < s.len() && is_digit(s[pos]) {
        1 + run_len(s, pos + 1)
    } else {
        0
    }
}

/// Decimal value of the `n` characters of `s` starting at `pos`.
pub open spec fn digits_val(s: Seq<char>, pos: int, n: nat) -> int
    decreases n,
{
    if n == 0 {
        0
    } else {
        digits_val(s, pos, (n - 1) as nat) * 10 + digit_value(s[pos + n - 1])
    }
}

/// `str::parse::<i32>` on a whole string: an optional sign and at least one
/// digit, every character consumed, the value inside `i32`.
pub open spec fn parse_i32_spec(s: Seq<char>) -> Option<i32> {
    let signed = s.len() > 0 && (s[0] == '+' || s[0] == '-');
    let start: int = if signed { 1 } else { 0 };
    let n = (s.len() - start) as nat;
    let mag = digits_val(s, start, n);
    let v = if signed && s[0] == '-' { -mag } else { mag };
    if n > 0 && run_len(s, start) == n && i32::MIN <= v <= i32::MAX {
        Some(v as i32)
    } else {
        None
    }
}

pub proof fn lemma_digits_val_nonneg(s: Seq<char>, pos: int, n: nat)
    requires
        forall|k: int| pos <= k < pos + n ==> is_digit(#[trigger] s[k]),
    ensures
        digits_val(s, pos, n) >= 0,
    decreases n,
{
    if n > 0 {
        lemma_digits_val_nonneg(s, pos, (n - 1) as nat);
    }
}

pub proof fn lemma_digits_val_mono(s: Seq<char>, pos: int, n: nat, m: nat)
    requires
        n <= m,
        forall|k: int| pos <= k < pos + m ==> is_digit(#[trigger] s[k]),
    ensures
        digits_val(s, pos, n) <= digits_val(s, pos, m),
    decreases m,
{
    if n < m {
        lemma_digits_val_mono(s, pos, n, (m - 1) as nat);
        lemma_digits_val_nonneg(s, pos, (m - 1) as nat);
    }
}

/// A prefix of digits is covered by the run, and the run stops at the first
/// non-digit.
pub proof fn lemma_run_len(s: Seq<char>, pos: int, i: int)
    requires
        0 <= pos <= i <= s.len(),
        forall|k: int| pos <= k < i ==> is_digit(#[trigger] s[k]),
    ensures
        run_len(s, pos) >= i - pos,
        (i == s.len() || !is_digit(s[i])) ==> run_len(s, pos) == i - pos,
        forall|k: int| pos <= k < pos + run_len(s, pos) ==> is_digit(#[trigger] s[k]),
    decreases i - pos,
{
    if pos < i {
        lemma_run_len(s, pos + 1, i);
    } else {
        lemma_run_all_digits(s, pos);
    }
}

pub proof fn lemma_run_all_digits(s: Seq<char>, pos: int)
    ensures
        forall|k: int| pos <= k < pos + run_len(s, pos) ==> is_digit(#[trigger] s[k]),
        pos + run_len(s, pos) <= s.len() || run_len(s, pos) == 0,
    decreases s.len() - pos,
{
    if 0 <= pos < s.len() && is_digit(s[pos]) {
        lemma_run_all_digits(s, pos + 1);
    }
}

/// `s.push(c)` on a `String`: the character is appended.
#[verifier::external_body]
pub(crate) fn push_char(s: &mut String, c: char)
    ensures
        final(s)@ == old(s)@.push(c),
{
    s.push(c);
}

/// The characters of `s`, in order.
pub fn chars_of(s: &str) -> (v: Vec<char>)
    ensures
        v@ == s@,
{
    let n = s.unicode_len();
    let mut v: Vec<char> = Vec::new();
    let mut i: usize = 0;
    while i < n
        invariant
            n == s@.len(),
            i <= n,
            v@ == s@.take(i as int),
        decreases n - i,
    {
        v.push(s.get_char(i));
        i += 1;
        assert(v@ =~= s@.take(i as int));
    }
    assert(s@.take(n as int) =~= s@);
    v
}

/// A `String` holding the characters `v[from..to]`.
pub fn string_of_range(v: &[char], from: usize, to: usize) -> (s: String)
    requires
        from <= to <= v@.len(),
    ensures
        s@ == v@.subrange(from as int, to as int),
{
    let mut s = String::new();
    let mut i = from;
    while i < to
        invariant
            from <= i <= to <= v@.len(),
            s@ == v@.subrange(from as int, i as int),
        decreases to - i,
    {
        push_char(&mut s, v[i]);
        i += 1;
        assert(s@ =~= v@.subrange(from as int, i as int));
    }
    s
}

/// A `String` holding exactly the characters of `v`.
pub fn string_of(v: &[char]) -> (s: String)
    ensures
        s@ == v@,
{
    let s = string_of_range(v, 0, v.len());
    assert(v@.subrange(0, v@.len() as int) =~= v@);
    s
}

pub fn is_ascii_digit(c: char) -> (b: bool)
    ensures
        b == is_digit(c),
{
    '0' <= c && c <= '9'
}

pub fn is_whitespace(c: char) -> (b: bool)
    ensures
        b == is_white(c),
{
    ('\u{9}' <= c && c <= '\u{d}') || c == ' ' || c == '\u{85}' || c == '\u{a0}' || c
        == '\u{1680}' || ('\u{2000}' <= c && c <= '\u{200a}') || c == '\u{2028}' || c
        == '\u{2029}' || c == '\u{202f}' || c == '\u{205f}' || c == '\u{3000}'
}

pub fn to_ascii_lower(c: char) -> (r: char)
    ensures
        r == ascii_lower(c),
{
    if 'A' <= c && c <= 'Z' {
        let u = (c as u32) + 32;
        assert(u <= 0x7f);
        let r = char_from_ascii(u as u8);
        r
    } else {
        c
    }
}

/// The ASCII character with code `b`.
pub fn char_from_ascii(b: u8) -> (c: char)
    requires
        b < 128,
    ensures
        c as int == b as int,
{
    b as char
}

/// `str::to_ascii_lowercase`.
pub fn ascii_lowercase(s: &[char]) -> (r: Vec<char>)
    ensures
        r@ == ascii_lower_seq(s@),
{
    let mut r: Vec<char> = Vec::new();
    let mut i: usize = 0;
    while i < s.len()
        invariant
            i <= s@.len(),
            r@ == ascii_lower_seq(s@.take(i as int)),
        decreases s.len() - i,
    {
        r.push(to_ascii_lower(s[i]));
        i += 1;
        assert(r@ =~= ascii_lower_seq(s@.take(i as int)));
    }
    assert(s@.take(s@.len() as int) =~= s@);
    r
}

pub proof fn lemma_lead_white(s: Seq<char>, i: int)
    requires
        0 <= i <= s.len(),
        forall|k: int| 0 <= k < i ==> is_white(#[trigger] s[k]),
        i == s.len() || !is_white(s[i]),
    ensures
        lead_white(s) == i,
    decreases i,
{
    if i > 0 {
        let t = s.drop_first();
        assert forall|k: int| 0 <= k < i - 1 implies is_white(#[trigger] t[k]) by {
            assert(t[k] == s[k + 1]);
        }
        if i - 1 < t.len() {
            assert(t[i - 1] == s[i]);
        }
        lemma_lead_white(t, i - 1);
    }
}

pub proof fn lemma_trail_white(s: Seq<char>, j: int)
    requires
        0 <= j <= s.len(),
        forall|k: int| j <= k < s.len() ==> is_white(#[trigger] s[k]),
        j == 0 || !is_white(s[j - 1]),
    ensures
        trail_white(s) == s.len() - j,
    decreases s.len() - j,
{
    if j < s.len() {
        let t = s.drop_last();
        assert forall|k: int| j <= k < t.len() implies is_white(#[trigger] t[k]) by {
            assert(t[k] == s[k]);
        }
        if j > 0 {
            assert(t[j - 1] == s[j - 1]);
        }
        lemma_trail_white(t, j);
    }
}

/// Bounds of `trim_spec(s[from..to])` inside `s`: the trimmed text is `s[a..b]`.
pub fn trim_bounds(s: &[char], from: usize, to: usize) -> (r: (usize, usize))
    requires
        from <= to <= s@.len(),
    ensures
        from <= r.0 <= r.1 <= to,
        s@.subrange(r.0 as int, r.1 as int) == trim_spec(s@.subrange(from as int, to as int)),
{
    let ghost w = s@.subrange(from as int, to as int);
    let mut a = from;
    while a < to && is_whitespace(s[a])
        invariant
            from <= a <= to <= s@.len(),
            forall|k: int| from <= k < a ==> is_white(#[trigger] s@[k]),
        decreases to - a,
    {
        a += 1;
    }
    proof {
        assert forall|k: int| 0 <= k < a - from implies is_white(#[trigger] w[k]) by {
            assert(w[k] == s@[from + k]);
        }
        if a < to {
            assert(w[a - from] == s@[a as int]);
        }
        lemma_lead_white(w, a - from);
    }
    let mut b = to;
    while b > a && is_whitespace(s[b - 1])
        invariant
            from <= a <= b <= to <= s@.len(),
            forall|k: int| b <= k < to ==> is_white(#[trigger] s@[k]),
        decreases b - a,
    {
        b -= 1;
    }
    proof {
        let x = w.skip(a - from);
        assert(x =~= s@.subrange(a as int, to as int));
        assert forall|k: int| b - a <= k < x.len() implies is_white(#[trigger] x[k]) by {
            assert(x[k] == s@[a + k]);
        }
        if b > a {
            assert(x[b - a - 1] == s@[b - 1]);
        }
        lemma_trail_white(x, b - a);
        assert(x.take(x.len() - trail_white(x)) =~= s@.subrange(a as int, b as int));
    }
    (a, b)
}

/// `str::trim`.
pub fn trim_chars(s: &[char]) -> (r: Vec<char>)
    ensures
        r@ == trim_spec(s@),
{
    let (a, b) = trim_bounds(s, 0, s.len());
    assert(s@.subrange(0, s@.len() as int) =~= s@);
    let mut r: Vec<char> = Vec::new();
    let mut i = a;
    while i < b
        invariant
            a <= i <= b <= s@.len(),
            r@ == s@.subrange(a as int, i as int),
        decreases b - i,
    {
        r.push(s[i]);
        i += 1;
        assert(r@ =~= s@.subrange(a as int, i as int));
    }
    r
}

/// `s` starts with the characters of `p`.
pub open spec fn starts_with(s: Seq<char>, p: Seq<char>) -> bool {
    p.len() <= s.len() && s.take(p.len() as int) == p
}

pub fn has_prefix(s: &[char], p: &[char]) -> (b: bool)
    ensures
        b == starts_with(s@, p@),
{
    if p.len() > s.len() {
        return false;
    }
    let mut i: usize = 0;
    while i < p.len()
        invariant
            p@.len() <= s@.len(),
            i <= p@.len(),
            forall|k: int| 0 <= k < i ==> s@[k] == p@[k],
        decreases p.len() - i,
    {
        if s[i] != p[i] {
            assert(s@.take(p@.len() as int)[i as int] != p@[i as int]);
            return false;
        }
        i += 1;
    }
    assert(s@.take(p@.len() as int) =~= p@);
    true
}

/// Same characters.
pub fn chars_eq(a: &[char], b: &[char]) -> (r: bool)
    ensures
        r == (a@ == b@),
{
    if a.len() != b.len() {
        return false;
    }
    let r = has_prefix(a, b);
    proof {
        if r {
            assert(a@.take(b@.len() as int) =~= a@);
        } else {
            if a@ == b@ {
                assert(a@.take(b@.len() as int) =~= b@);
            }
        }
    }
    r
}

/// Same characters, for two string slices.
pub fn str_eq(a: &str, b: &str) -> (r: bool)
    ensures
        r == (a@ == b@),
{
    let x = chars_of(a);
    let y = chars_of(b);
    chars_eq(&x, &y)
}

/// Run of ASCII digits at `pos` read as a number, giving up once the value
/// passes `limit` (then `None`). On `Some((v, end))` the run is `pos..end` and
/// `v` its value.
pub fn read_run_upto(s: &[char], pos: usize, limit: i64) -> (r: Option<(i64, usize)>)
    requires
        pos <= s@.len(),
        0 <= limit <= 0x1_0000_0000,
    ensures
        ({
            let n = run_len(s@, pos as int);
            let v = digits_val(s@, pos as int, n);
            &&& v >= 0
            &&& match r {
                Some((x, end)) => v <= limit && x == v && end == pos + n,
                None => v > limit,
            }
        }),
{
    let mut i = pos;
    let mut acc: i64 = 0;
    while i < s.len() && is_ascii_digit(s[i])
        invariant
            pos <= i <= s@.len(),
            0 <= limit <= 0x1_0000_0000,
            forall|k: int| pos <= k < i ==> is_digit(#[trigger] s@[k]),
            acc == digits_val(s@, pos as int, (i - pos) as nat),
            0 <= acc <= limit,
        decreases s.len() - i,
    {
        let d = (s[i] as u32 - '0' as u32) as i64;
        proof {
            assert(digits_val(s@, pos as int, (i + 1 - pos) as nat) == acc * 10 + digit_value(
                s@[i as int],
            ));
        }
        acc = acc * 10 + d;
        i += 1;
        if acc > limit {
            proof {
                lemma_run_len(s@, pos as int, i as int);
                lemma_run_all_digits(s@, pos as int);
                lemma_digits_val_mono(
                    s@,
                    pos as int,
                    (i - pos) as nat,
                    run_len(s@, pos as int),
                );
            }
            return None;
        }
    }
    proof {
        lemma_run_len(s@, pos as int, i as int);
    }
    Some((acc, i))
}

/// Run of ASCII digits at `pos` read as an `i32` (`None` once it passes
/// `i32::MAX`).
pub fn read_digit_run(s: &[char], pos: usize) -> (r: Option<(i32, usize)>)
    requires
        pos <= s@.len(),
    ensures
        ({
            let n = run_len(s@, pos as int);
            let v = digits_val(s@, pos as int, n);
            &&& v >= 0
            &&& match r {
                Some((x, end)) => v <= i32::MAX && x == v && end == pos + n,
                None => v > i32::MAX,
            }
        }),
{
    match read_run_upto(s, pos, i32::MAX as i64) {
        Some((v, end)) => Some((v as i32, end)),
        None => None,
    }
}

/// `str::parse::<i32>` on `s[from..to]`.
pub fn parse_i32(s: &[char], from: usize, to: usize) -> (r: Option<i32>)
    requires
        from <= to <= s@.len(),
    ensures
        r == parse_i32_spec(s@.subrange(from as int, to as int)),
{
    let w = copy_range(s, from, to);
    let signed = w.len() > 0 && (w[0] == '+' || w[0] == '-');
    let neg = signed && w[0] == '-';
    let start: usize = if signed { 1 } else { 0 };
    if start == w.len() {
        return None;
    }
    proof {
        lemma_run_all_digits(w@, start as int);
    }
    match read_run_upto(&w, start, 0x8000_0000) {
        None => {
            proof {
                let n = (w@.len() - start) as nat;
                if run_len(w@, start as int) == n {
                    assert(digits_val(w@, start as int, n) > 0x8000_0000);
                }
            }
            None
        },
        Some((v, end)) => {
            if end != w.len() {
                None
            } else if neg {
                Some((-v) as i32)
            } else if v <= i32::MAX as i64 {
                Some(v as i32)
            } else {
                None
            }
        },
    }
}

/// A copy of `s[from..to]`.
pub fn copy_range(s: &[char], from: usize, to: usize) -> (r: Vec<char>)
    requires
        from <= to <= s@.len(),
    ensures
        r@ == s@.subrange(from as int, to as int),
{
    let mut r: Vec<char> = Vec::new();
    let mut i = from;
    while i < to
        invariant
            from <= i <= to <= s@.len(),
            r@ == s@.subrange(from as int, i as int),
        decreases to - i,
    {
        r.push(s[i]);
        i += 1;
        assert(r@ =~= s@.subrange(from as int, i as int));
    }
    r
}

/// Digits read from `s` at `pos` equal those read from `w = s[from..]` at
/// `pos - from`.
pub proof fn lemma_same_digits(s: Seq<char>, w: Seq<char>, pos: int, from: int, n: nat)
    requires
        0 <= from <= pos,
        pos + n <= s.len(),
        pos - from + n <= w.len(),
        forall|k: int| 0 <= k < w.len() ==> w[k] == s[from + k],
    ensures
        digits_val(s, pos, n) == digits_val(w, pos - from, n),
    decreases n,
{
    if n > 0 {
        lemma_same_digits(s, w, pos, from, (n - 1) as nat);
        assert(w[pos - from + n - 1] == s[pos + n - 1]);
    }
}

/// What `str::to_lowercase` returns for these characters (Unicode lowercase
/// mapping, including its context rule for final sigma).
pub uninterp spec fn lowercase_of(s: Seq<char>) -> Seq<char>;

/// All of `s` is ASCII.
pub open spec fn all_ascii(s: Seq<char>) -> bool {
    forall|i: int| 0 <= i < s.len() ==> (s[i] as u32) < 128
}

/// `str::to_lowercase`. Claimed: the result is `lowercase_of` of the input,
/// and on ASCII input each letter `A`..`Z` becomes its lowercase letter and
/// every other character stays (the Unicode lowercase mapping on ASCII);
/// nothing more is stated of the mapping beyond ASCII.
#[verifier::external_body]
pub(crate) fn to_lowercase(s: &str) -> (r: String)
    ensures
        r@ == lowercase_of(s@),
        all_ascii(s@) ==> r@ == ascii_lower_seq(s@),
{
    s.to_lowercase()
}

/// No `/`, `\\` or `:` inside: a bare file name on every platform.
pub open spec fn is_bare_name(s: Seq<char>) -> bool {
    &&& forall|i: int| 0 <= i < s.len() ==> s[i] != '/' && s[i] != '\\' && s[i] != ':'
    &&& s.len() > 0
    &&& !(s =~= seq!['.'])
    &&& !(s =~= seq!['.', '.'])
}

/// Index of the last `.` in `s`, if any.
pub open spec fn last_dot(s: Seq<char>) -> Option<int>
    decreases s.len(),
{
    if s.len() == 0 {
        None
    } else if s.last() == '.' {
        Some(s.len() - 1)
    } else {
        last_dot(s.drop_last())
    }
}

/// `Path::file_stem` of a bare file name: the whole name when it has no `.`
/// or its only `.` leads, else the part before the last `.`.
pub open spec fn stem_rule(s: Seq<char>) -> Seq<char> {
    match last_dot(s) {
        Some(d) => if d == 0 { s } else { s.take(d) },
        None => s,
    }
}

/// The part of `s` after its last `/` (all of it when it has none).
pub open spec fn last_segment(s: Seq<char>) -> Seq<char>
    decreases s.len(),
{
    if s.len() == 0 {
        s
    } else if s.last() == '/' {
        Seq::empty()
    } else {
        last_segment(s.drop_last()).push(s.last())
    }
}

/// A path whose only separator is `/`, with no `\\` or `:` and not starting
/// with `//`: no platform reads a prefix (drive, share, device) into it, so
/// its components are its `/`-separated pieces everywhere.
pub open spec fn plain_path(s: Seq<char>) -> bool {
    &&& forall|i: int| 0 <= i < s.len() ==> s[i] != '\\' && s[i] != ':'
    &&& !(s.len() >= 2 && s[0] == '/' && s[1] == '/')
}

/// A plain path whose last piece is a file name (not empty, `.` or `..`).
pub open spec fn names_file(s: Seq<char>) -> bool {
    plain_path(s) && is_bare_name(last_segment(s))
}

/// A bare name is a plain path naming itself.
pub proof fn lemma_bare_names_file(s: Seq<char>)
    ensures
        is_bare_name(s) ==> names_file(s) && last_segment(s) == s,
    decreases s.len(),
{
    if is_bare_name(s) {
        lemma_no_slash_segment(s);
    }
}

proof fn lemma_no_slash_segment(s: Seq<char>)
    requires
        forall|i: int| 0 <= i < s.len() ==> s[i] != '/',
    ensures
        last_segment(s) == s,
    decreases s.len(),
{
    if s.len() > 0 {
        lemma_no_slash_segment(s.drop_last());
        assert(s.drop_last().push(s.last()) =~= s);
    }
}

/// `Path::new(name).file_stem()` as a `String`, empty when there is none.
/// Claimed: on a bare file name (no separator, not `.`/`..`) the stem follows
/// `stem_rule`, as the documentation of `file_stem` describes; on a plain
/// `/`-separated path (`plain_path`) the file name is its last piece, so
/// when that piece is a bare name the stem is that piece's. For other
/// inputs (a `\\` or `:` in the name, a leading `//`, or a last piece that is
/// empty, `.` or `..`) the result depends on the platform's path syntax and
/// nothing is claimed.
#[verifier::external_body]
pub(crate) fn file_stem(name: &str) -> (r: String)
    ensures
        is_bare_name(name@) ==> r@ == stem_rule(name@),
        names_file(name@) ==> r@ == stem_rule(last_segment(name@)),
{
    std::path::Path::new(name).file_stem().unwrap_or_default().to_string_lossy().to_string()
}

/// Decimal digits of `n` (no sign, no leading zeros; "0" for zero).
pub open spec fn decimal(n: nat) -> Seq<char>
    decreases n,
{
    if n < 10 {
        seq![digit_char(n)]
    } else {
        decimal(n / 10).push(digit_char(n % 10))
    }
}

pub open spec fn digit_char(d: nat) -> char {
    ((d as int) + ('0' as int)) as char
}

/// Decimal text of a signed integer, `-` before negatives.
pub open spec fn decimal_int(v: int) -> Seq<char> {
    if v < 0 {
        seq!['-'] + decimal((-v) as nat)
    } else {
        decimal(v as nat)
    }
}

fn digit_to_char(d: u64) -> (c: char)
    requires
        d < 10,
    ensures
        c == digit_char(d as nat),
{
    char_from_ascii((d + 48) as u8)
}

/// Append the decimal digits of `n` to `out`.
pub fn push_decimal(out: &mut String, n: u64)
    ensures
        final(out)@ == old(out)@ + decimal(n as nat),
    decreases n,
{
    if n < 10 {
        push_char(out, digit_to_char(n));
        assert(decimal(n as nat) =~= seq![digit_char(n as nat)]);
    } else {
        push_decimal(out, n / 10);
        push_char(out, digit_to_char(n % 10));
    }
}

/// Append the decimal text of `v` (`-` first when negative).
pub fn push_decimal_i64(out: &mut String, v: i64)
    ensures
        final(out)@ == old(out)@ + decimal_int(v as int),
{
    if v < 0 {
        push_char(out, '-');
        let m: u64 = if v == i64::MIN {
            0x8000_0000_0000_0000u64
        } else {
            (-v) as u64
        };
        push_decimal(out, m);
    } else {
        push_decimal(out, v as u64);
    }
}

/// Append the characters of a string slice.
pub fn push_str(out: &mut String, s: &str)
    ensures
        final(out)@ == old(out)@ + s@,
{
    out.append(s);
}

/// Append the characters of `v`.
pub fn push_chars(out: &mut String, v: &[char])
    ensures
        final(out)@ == old(out)@ + v@,
{
    let ghost start = out@;
    let mut i: usize = 0;
    while i < v.len()
        invariant
            i <= v@.len(),
            out@ == start + v@.take(i as int),
        decreases v.len() - i,
    {
        push_char(out, v[i]);
        i += 1;
        assert(out@ =~= start + v@.take(i as int));
    }
    assert(v@.take(v@.len() as int) =~= v@);
}

/// `list` contains the characters `w`.
pub fn contains_word(list: &[&str], w: &[char]) -> (b: bool)
    ensures
        b == list@.map_values(|e: &str| e@).contains(w@),
{
    let ghost views = list@.map_values(|e: &str| e@);
    let mut i: usize = 0;
    while i < list.len()
        invariant
            i <= list@.len(),
            views == list@.map_values(|e: &str| e@),
            forall|k: int| 0 <= k < i ==> views[k] != w@,
        decreases list.len() - i,
    {
        let c = chars_of(list[i]);
        if chars_eq(&c, w) {
            assert(views[i as int] == w@);
            return true;
        }
        i += 1;
    }
    false
}

/// Bytes `c` takes in UTF-8.
pub open spec fn utf8_len(c: char) -> int {
    let v = c as u32;
    if v < 0x80 {
        1
    } else if v < 0x800 {
        2
    } else if v < 0x10000 {
        3
    } else {
        4
    }
}

/// `str::get(..n)`: the leading characters that take exactly `n` bytes,
/// or none when `n` passes the end or falls inside a character.
pub open spec fn byte_prefix(s: Seq<char>, n: int) -> Option<Seq<char>>
    decreases s.len(),
{
    if n == 0 {
        Some(Seq::empty())
    } else if n < 0 || s.len() == 0 {
        None
    } else {
        match byte_prefix(s.drop_first(), n - utf8_len(s[0])) {
            Some(p) => Some(seq![s[0]] + p),
            None => None,
        }
    }
}

fn utf8_width(c: char) -> (w: usize)
    ensures
        w == utf8_len(c),
{
    let v = c as u32;
    if v < 0x80 {
        1
    } else if v < 0x800 {
        2
    } else if v < 0x10000 {
        3
    } else {
        4
    }
}

/// The first `n` bytes of `s` as a string, when they end on a character
/// boundary (`str::get(..n)`).
pub fn prefix_bytes(s: &str, n: usize) -> (r: Option<String>)
    ensures
        opt_chars(r) == byte_prefix(s@, n as int),
{
    let c = chars_of(s);
    let mut i: usize = 0;
    let mut used: usize = 0;
    proof {
        assert(c@.skip(0) =~= c@);
    }
    while i < c.len() && used < n
        invariant
            i <= c@.len(),
            used <= n,
            c@ == s@,
            byte_prefix(s@, n as int) == match byte_prefix(c@.skip(i as int), n - used) {
                Some(p) => Some(c@.take(i as int) + p),
                None => None,
            },
        decreases c.len() - i,
    {
        let w = utf8_width(c[i]);
        proof {
            let rest = c@.skip(i as int);
            assert(rest[0] == c@[i as int]);
            assert(rest.drop_first() =~= c@.skip(i as int + 1));
            assert(c@.take(i as int + 1) =~= c@.take(i as int) + seq![c@[i as int]]);
            match byte_prefix(c@.skip(i as int + 1), n - used - w) {
                Some(p) => {
                    assert(c@.take(i as int) + (seq![c@[i as int]] + p) =~= c@.take(i as int + 1) + p);
                },
                None => {},
            }
        }
        if w > n - used {
            proof {
                assert(byte_prefix(c@.skip(i as int + 1), n - used - w) is None);
            }
            return None;
        }
        used = used + w;
        i += 1;
    }
    if used == n {
        proof {
            assert(byte_prefix(c@.skip(i as int), 0) == Some(Seq::<char>::empty()));
            assert(c@.take(i as int) + Seq::<char>::empty() =~= c@.take(i as int));
        }
        Some(string_of_range(&c, 0, i))
    } else {
        proof {
            assert(c@.skip(i as int).len() == 0);
        }
        None
    }
}

/// Characters of an optional string.
pub open spec fn opt_chars(o: Option<String>) -> Option<Seq<char>> {
    match o {
        Some(s) => Some(s@),
        None => None,
    }
}

/// `str::parse::<i64>` on a whole string: an optional sign and at least one
/// digit, every character consumed, the value inside `i64`.
pub open spec fn parse_i64_spec(s: Seq<char>) -> Option<i64> {
    let signed = s.len() > 0 && (s[0] == '+' || s[0] == '-');
    let start: int = if signed { 1 } else { 0 };
    let n = (s.len() - start) as nat;
    let mag = digits_val(s, start, n);
    let v = if signed && s[0] == '-' { -mag } else { mag };
    if n > 0 && run_len(s, start) == n && i64::MIN <= v <= i64::MAX {
        Some(v as i64)
    } else {
        None
    }
}

/// Run of ASCII digits at `pos` read as a number, giving up once it passes
/// 2^63 (then `None`).
fn read_run_wide(s: &[char], pos: usize) -> (r: Option<(i128, usize)>)
    requires
        pos <= s@.len(),
    ensures
        ({
            let n = run_len(s@, pos as int);
            let v = digits_val(s@, pos as int, n);
            &&& v >= 0
            &&& match r {
                Some((x, end)) => v <= 0x8000_0000_0000_0000 && x == v && end == pos + n,
                None => v > 0x8000_0000_0000_0000,
            }
        }),
{
    let mut i = pos;
    let mut acc: i128 = 0;
    while i < s.len() && is_ascii_digit(s[i])
        invariant
            pos <= i <= s@.len(),
            forall|k: int| pos <= k < i ==> is_digit(#[trigger] s@[k]),
            acc == digits_val(s@, pos as int, (i - pos) as nat),
            0 <= acc <= 0x8000_0000_0000_0000,
        decreases s.len() - i,
    {
        let d = (s[i] as u32 - '0' as u32) as i128;
        proof {
            assert(digits_val(s@, pos as int, (i + 1 - pos) as nat) == acc * 10 + digit_value(s@[i as int]));
        }
        acc = acc * 10 + d;
        i += 1;
        if acc > 0x8000_0000_0000_0000 {
            proof {
                lemma_run_len(s@, pos as int, i as int);
                lemma_run_all_digits(s@, pos as int);
                lemma_digits_val_mono(s@, pos as int, (i - pos) as nat, run_len(s@, pos as int));
            }
            return None;
        }
    }
    proof {
        lemma_run_len(s@, pos as int, i as int);
    }
    Some((acc, i))
}

/// `str::parse::<i64>`.
pub fn parse_i64(t: &str) -> (r: Option<i64>)
    ensures
        r == parse_i64_spec(t@),
{
    let w = chars_of(t);
    let signed = w.len() > 0 && (w[0] == '+' || w[0] == '-');
    let neg = signed && w[0] == '-';
    let start: usize = if signed { 1 } else { 0 };
    if start == w.len() {
        return None;
    }
    proof {
        lemma_run_all_digits(w@, start as int);
    }
    match read_run_wide(&w, start) {
        None => {
            proof {
                let n = (w@.len() - start) as nat;
                if run_len(w@, start as int) == n {
                    assert(digits_val(w@, start as int, n) > 0x8000_0000_0000_0000);
                }
            }
            None
        },
        Some((v, end)) => {
            if end != w.len() {
                None
            } else if neg {
                Some((-v) as i64)
            } else if v <= i64::MAX as i128 {
                Some(v as i64)
            } else {
                None
            }
        },
    }
}

/// `digits_val` reads only the characters in its range.
pub proof fn lemma_digits_val_same(a: Seq<char>, pa: int, b: Seq<char>, pb: int, n: nat)
    requires
        forall|k: int| 0 <= k < n ==> #[trigger] a[pa + k] == b[pb + k],
    ensures
        digits_val(a, pa, n) == digits_val(b, pb, n),
    decreases n,
{
    if n > 0 {
        assert(a[pa + (n - 1)] == b[pb + (n - 1)]);
        lemma_digits_val_same(a, pa, b, pb, (n - 1) as nat);
    }
}

/// The decimal text of `n` is all digits and reads back as `n`.
pub proof fn lemma_decimal_reads_back(n: nat)
    ensures
        decimal(n).len() > 0,
        forall|k: int| 0 <= k < decimal(n).len() ==> is_digit(#[trigger] decimal(n)[k]),
        digits_val(decimal(n), 0, decimal(n).len()) == n,
    decreases n,
{
    if n >= 10 {
        let d = decimal(n / 10);
        lemma_decimal_reads_back(n / 10);
        let s = decimal(n);
        assert(s == d.push(digit_char(n % 10)));
        assert forall|k: int| 0 <= k < s.len() implies is_digit(#[trigger] s[k]) by {
            if k < d.len() {
                assert(s[k] == d[k]);
            }
        }
        assert forall|k: int| 0 <= k < d.len() implies #[trigger] s[0 + k] == d[0 + k] by {}
        lemma_digits_val_same(s, 0, d, 0, d.len());
        assert(digit_value(s[s.len() - 1]) == n % 10);
        assert(s.len() == d.len() + 1);
        assert(digits_val(s, 0, s.len()) == digits_val(s, 0, d.len()) * 10 + digit_value(s[s.len() - 1]));
        assert((n / 10) * 10 + n % 10 == n);
    } else {
        let s = decimal(n);
        assert(s.len() == 1);
        assert(digits_val(s, 0, 1) == digits_val(s, 0, 0) * 10 + digit_value(s[0]));
    }
}

/// Whatever `decimal_int` writes, `str::parse::<i64>` reads back.
pub proof fn lemma_parse_decimal_int(v: i64)
    ensures
        parse_i64_spec(decimal_int(v as int)) == Some(v),
{
    let s = decimal_int(v as int);
    if v < 0 {
        let m = (-(v as int)) as nat;
        let d = decimal(m);
        lemma_decimal_reads_back(m);
        assert(s == seq!['-'] + d);
        assert forall|k: int| 0 <= k < d.len() implies #[trigger] s[1 + k] == d[0 + k] by {}
        lemma_digits_val_same(s, 1, d, 0, d.len());
        assert forall|k: int| 1 <= k < s.len() implies is_digit(#[trigger] s[k]) by {
            assert(s[k] == d[k - 1]);
        }
        lemma_run_len(s, 1, s.len() as int);
    } else {
        let d = decimal(v as nat);
        lemma_decimal_reads_back(v as nat);
        assert(s == d);
        lemma_run_len(s, 0, s.len() as int);
        assert(s[0] != '+' && s[0] != '-') by {
            assert(is_digit(s[0]));
        }
    }
}

} // verus!
