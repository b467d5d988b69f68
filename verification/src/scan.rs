//! Library scanning decisions: how a folder is classified under its base's
//! tag, how season folders and episode files are ordered, how a flat show's
//! loose episode files are laid out into seasons, and how a rescan reconciles
//! what is on disk with what the catalog holds. Reading folders and writing
//! rows is the caller's part.

use vstd::prelude::*;
use crate::naming::{
    episode_range_spec, opt_view, parse_episode_filename, parse_season_folder_name, parse_season_number,
    parse_song_filename, season_folder_spec, season_number_spec, song_spec,
};
use crate::session::{str_less, str_lt};
use crate::text::{decimal_int, is_bare_name, lowercase_of, push_decimal_i64, push_str, stem_rule};

verus! {

/// The tag of a library base folder: what its entries are taken for.
#[derive(PartialEq, Eq, Structural, Clone, Copy, Debug)]
pub enum ScanKind {
    Movie,
    Show,
}

/// What a folder under a base is.
#[derive(PartialEq, Eq, Structural, Clone, Copy, Debug)]
pub enum FolderClass {
    /// A show with season folders.
    Show,
    /// A show whose episodes lie directly in its folder.
    FlatShow,
    Movie,
    /// Neither: its subfolders are scanned with the same tag.
    Container,
}

/// Classification follows the base's tag, not the folder's shape: under a
/// show base a folder with season folders is a show, else one with video
/// files is a flat show; under a movie base a folder with video files is a
/// movie; anything else is a container.
pub open spec fn folder_class(kind: ScanKind, has_season: bool, has_video: bool) -> FolderClass {
    match kind {
        ScanKind::Show => if has_season {
            FolderClass::Show
        } else if has_video {
            FolderClass::FlatShow
        } else {
            FolderClass::Container
        },
        ScanKind::Movie => if has_video {
            FolderClass::Movie
        } else {
            FolderClass::Container
        },
    }
}

pub fn classify_folder(kind: ScanKind, has_season: bool, has_video: bool) -> (r: FolderClass)
    ensures
        r == folder_class(kind, has_season, has_video),
{
    match kind {
        ScanKind::Show => if has_season {
            FolderClass::Show
        } else if has_video {
            FolderClass::FlatShow
        } else {
            FolderClass::Container
        },
        ScanKind::Movie => if has_video {
            FolderClass::Movie
        } else {
            FolderClass::Container
        },
    }
}

/// The entry a folder of class `c` becomes: `Some(is_show)`, or `None` for
/// a container.
pub fn entry_kind(c: FolderClass) -> (r: Option<bool>)
    ensures
        r == match c {
            FolderClass::Show | FolderClass::FlatShow => Some(true),
            FolderClass::Movie => Some(false),
            FolderClass::Container => None::<bool>,
        },
{
    match c {
        FolderClass::Show | FolderClass::FlatShow => Some(true),
        FolderClass::Movie => Some(false),
        FolderClass::Container => None,
    }
}

/// Under a movie base a folder is a movie exactly when it holds video
/// files, whatever subfolders it has; otherwise it is a container. Under a
/// show base a folder with season folders is a show, one with only video
/// files a flat show.
pub proof fn law_folder_classes(has_season: bool, has_video: bool)
    ensures
        (folder_class(ScanKind::Movie, has_season, has_video) == FolderClass::Movie) == has_video,
        !has_video ==> folder_class(ScanKind::Movie, has_season, has_video) == FolderClass::Container,
        has_season ==> folder_class(ScanKind::Show, has_season, has_video) == FolderClass::Show,
        !has_season && has_video ==> folder_class(ScanKind::Show, has_season, has_video) == FolderClass::FlatShow,
        !has_season && !has_video ==> folder_class(ScanKind::Show, has_season, has_video) == FolderClass::Container,
{
}

/// Season number a folder name carries.
pub open spec fn season_dir_number(name: Seq<char>) -> Option<int> {
    season_folder_spec(lowercase_of(name))
}

/// Whether any of the (scannable) subfolder `names` is a season folder.
pub fn has_season_dir(names: &[String]) -> (b: bool)
    ensures
        b == exists|i: int| 0 <= i < names@.len() && (#[trigger] season_dir_number(names@[i]@)) is Some,
{
    let mut i: usize = 0;
    while i < names.len()
        invariant
            i <= names@.len(),
            forall|j: int| 0 <= j < i ==> (#[trigger] season_dir_number(names@[j]@)) is None,
        decreases names.len() - i,
    {
        let (_, n) = parse_season_folder_name(names[i].as_str());
        if n.is_some() {
            assert(season_dir_number(names@[i as int]@) is Some);
            return true;
        }
        i += 1;
    }
    false
}

/// Season folders sort by number when both carry one, else by name.
pub open spec fn season_dir_before_spec(a: Seq<char>, b: Seq<char>) -> bool {
    match (season_dir_number(a), season_dir_number(b)) {
        (Some(x), Some(y)) => x < y,
        _ => str_lt(a, b),
    }
}

/// Whether season folder `a` sorts before `b`.
pub fn season_dir_before(a: &str, b: &str) -> (r: bool)
    ensures
        r == season_dir_before_spec(a@, b@),
{
    let (_, x) = parse_season_folder_name(a);
    let (_, y) = parse_season_folder_name(b);
    match (x, y) {
        (Some(p), Some(q)) => p < q,
        _ => str_less(a, b),
    }
}

/// First episode number an episode file name carries (read from its stem).
pub open spec fn episode_number_of(name: Seq<char>) -> Option<int> {
    episode_range_spec(lowercase_of(stem_rule(name))).0
}

/// Episode files sort by first episode number when both carry one, else by
/// name.
pub open spec fn episode_file_before_spec(a: Seq<char>, b: Seq<char>) -> bool {
    match (episode_number_of(a), episode_number_of(b)) {
        (Some(x), Some(y)) => x < y,
        _ => str_lt(a, b),
    }
}

/// Whether episode file `a` sorts before `b` (stated for bare file names).
pub fn episode_file_before(a: &str, b: &str) -> (r: bool)
    ensures
        is_bare_name(a@) && is_bare_name(b@) ==> r == episode_file_before_spec(a@, b@),
{
    let (_, x) = parse_episode_filename(a);
    let (_, y) = parse_episode_filename(b);
    match (x, y) {
        (Some(p), Some(q)) => p < q,
        _ => str_less(a, b),
    }
}

/// Track number an audio file name carries (read from its stem).
pub open spec fn track_number_of(name: Seq<char>) -> Option<int> {
    song_spec(stem_rule(name)).1
}

/// Tracks sort by track number when both carry one, else by name.
pub open spec fn track_file_before_spec(a: Seq<char>, b: Seq<char>) -> bool {
    match (track_number_of(a), track_number_of(b)) {
        (Some(x), Some(y)) => x < y,
        _ => str_lt(a, b),
    }
}

/// Whether track file `a` sorts before `b` (stated for bare file names).
pub fn track_file_before(a: &str, b: &str) -> (r: bool)
    ensures
        is_bare_name(a@) && is_bare_name(b@) ==> r == track_file_before_spec(a@, b@),
{
    let (_, x) = parse_song_filename(a);
    let (_, y) = parse_song_filename(b);
    match (x, y) {
        (Some(p), Some(q)) => p < q,
        _ => str_less(a, b),
    }
}

/// Season a loose episode file of a flat show belongs to: the `SxxEyy`
/// season of its name, else season 1.
pub open spec fn flat_season(name: Seq<char>) -> int {
    match season_number_spec(lowercase_of(stem_rule(name))) {
        Some(n) => n,
        None => 1,
    }
}

pub fn flat_season_number(name: &str) -> (r: i32)
    ensures
        is_bare_name(name@) ==> r == flat_season(name@),
{
    match parse_season_number(name) {
        Some(n) => n,
        None => 1,
    }
}

/// Loose files of a flat show sort by season, then first episode number
/// (none first), then name.
pub open spec fn flat_before_spec(a: Seq<char>, b: Seq<char>) -> bool {
    let (sa, sb) = (flat_season(a), flat_season(b));
    let (ea, eb) = (episode_number_of(a), episode_number_of(b));
    if sa != sb {
        sa < sb
    } else if ea != eb {
        match (ea, eb) {
            (None, _) => true,
            (Some(_), None) => false,
            (Some(x), Some(y)) => x < y,
        }
    } else {
        str_lt(a, b)
    }
}

/// Whether loose file `a` sorts before `b` (stated for bare file names).
pub fn flat_file_before(a: &str, b: &str) -> (r: bool)
    ensures
        is_bare_name(a@) && is_bare_name(b@) ==> r == flat_before_spec(a@, b@),
{
    let sa = flat_season_number(a);
    let sb = flat_season_number(b);
    let (_, ea) = parse_episode_filename(a);
    let (_, eb) = parse_episode_filename(b);
    if sa != sb {
        sa < sb
    } else {
        match (ea, eb) {
            (None, None) => str_less(a, b),
            (None, Some(_)) => true,
            (Some(_), None) => false,
            (Some(x), Some(y)) => if x != y {
                x < y
            } else {
                str_less(a, b)
            },
        }
    }
}

/// Title of a synthesized season: "Specials" for season 0, else
/// "Season <n>".
pub open spec fn season_title(n: int) -> Seq<char> {
    if n == 0 {
        "Specials"@
    } else {
        "Season "@ + decimal_int(n)
    }
}

pub fn flat_season_title(n: i32) -> (r: String)
    ensures
        r@ == season_title(n as int),
{
    let mut s = String::new();
    if n == 0 {
        push_str(&mut s, "Specials");
        proof {
            reveal_strlit("Specials");
        }
    } else {
        push_str(&mut s, "Season ");
        push_decimal_i64(&mut s, n as i64);
    }
    s
}

// ---------------------------------------------------------------------------
// Flat shows
// ---------------------------------------------------------------------------

/// How many of `s[..i]` equal `v`.
pub open spec fn count_before(s: Seq<i32>, i: int, v: i32) -> int
    decreases i,
{
    if i <= 0 {
        0
    } else {
        count_before(s, i - 1, v) + if s[i - 1] == v { 1int } else { 0 }
    }
}

/// The distinct values of `s[..n]` in order of first appearance.
pub open spec fn seen(s: Seq<i32>, n: int) -> Seq<i32>
    decreases n,
{
    if n <= 0 {
        Seq::empty()
    } else {
        let prev = seen(s, n - 1);
        if prev.contains(s[n - 1]) {
            prev
        } else {
            prev.push(s[n - 1])
        }
    }
}

pub proof fn lemma_seen(s: Seq<i32>, n: int)
    requires
        0 <= n <= s.len(),
    ensures
        seen(s, n).no_duplicates(),
        forall|j: int| 0 <= j < n ==> seen(s, n).contains(#[trigger] s[j]),
        forall|v: i32| #[trigger] seen(s, n).contains(v) ==> count_before(s, n, v) > 0,
        forall|v: i32| !seen(s, n).contains(v) ==> #[trigger] count_before(s, n, v) == 0,
    decreases n,
{
    if n > 0 {
        lemma_seen(s, n - 1);
        let prev = seen(s, n - 1);
        let cur = seen(s, n);
        if !prev.contains(s[n - 1]) {
            assert(cur == prev.push(s[n - 1]));
            assert forall|a: int, b: int| 0 <= a < b < cur.len() implies #[trigger] cur[a] != #[trigger] cur[b] by {
                if b == prev.len() {
                    assert(prev[a] == cur[a]);
                    assert(prev.contains(prev[a]));
                } else {
                    assert(prev[a] == cur[a] && prev[b] == cur[b]);
                }
            }
        }
        // Everything in `prev` is still in `cur`.
        assert forall|v: i32| prev.contains(v) implies #[trigger] cur.contains(v) by {
            let k = choose|k: int| 0 <= k < prev.len() && prev[k] == v;
            assert(cur[k] == v);
        }
        assert(cur.contains(s[n - 1])) by {
            if !prev.contains(s[n - 1]) {
                assert(cur[prev.len() as int] == s[n - 1]);
            }
        }
        assert forall|j: int| 0 <= j < n implies cur.contains(#[trigger] s[j]) by {
            if j < n - 1 {
                assert(prev.contains(s[j]));
            }
        }
        assert forall|v: i32| #[trigger] cur.contains(v) implies count_before(s, n, v) > 0 by {
            lemma_count_le(s, n - 1, v);
            if v != s[n - 1] {
                let k = choose|k: int| 0 <= k < cur.len() && cur[k] == v;
                if !prev.contains(s[n - 1]) {
                    assert(k < prev.len());
                    assert(prev[k] == v);
                }
                assert(prev.contains(v));
            }
        }
        assert forall|v: i32| !cur.contains(v) implies #[trigger] count_before(s, n, v) == 0 by {
            assert(!prev.contains(v));
            assert(v != s[n - 1]);
            assert(count_before(s, n - 1, v) == 0);
        }
    }
}

/// Where a loose file of a flat show lands: its season, that season's
/// position among the show's seasons, and the file's position in it.
#[derive(Clone, Copy)]
pub struct FlatSlot {
    pub season: i32,
    pub season_order: i32,
    pub episode_order: i32,
}

pub open spec fn slot_seasons(r: Seq<FlatSlot>) -> Seq<i32> {
    r.map_values(|x: FlatSlot| x.season)
}

/// Lay out a flat show's loose files, given in the order they are added
/// (see `flat_file_before`): seasons are created in order of first
/// appearance, and each season numbers its files from 0 in turn.
pub fn flat_layout(names: &[String]) -> (r: Vec<FlatSlot>)
    requires
        names@.len() <= i32::MAX,
    ensures
        r@.len() == names@.len(),
        forall|i: int| 0 <= i < names@.len() && is_bare_name(#[trigger] names@[i]@) ==> r@[i].season == flat_season(
            names@[i]@,
        ),
        forall|i: int|
            0 <= i < r@.len() ==> {
                let order = (#[trigger] r@[i]).season_order as int;
                &&& 0 <= order < seen(slot_seasons(r@), r@.len() as int).len()
                &&& seen(slot_seasons(r@), r@.len() as int)[order] == r@[i].season
            },
        forall|i: int|
            0 <= i < r@.len() ==> (#[trigger] r@[i]).episode_order == count_before(slot_seasons(r@), i, r@[i].season),
{
    let mut table: Vec<(i32, i32)> = Vec::new();
    let mut out: Vec<FlatSlot> = Vec::new();
    let mut i: usize = 0;
    while i < names.len()
        invariant
            i <= names@.len(),
            names@.len() <= i32::MAX,
            out@.len() == i,
            table@.map_values(|e: (i32, i32)| e.0) == seen(slot_seasons(out@), i as int),
            forall|k: int| 0 <= k < table@.len() ==> (#[trigger] table@[k]).1 == count_before(slot_seasons(out@), i as int, table@[k].0),
            forall|q: int| 0 <= q < i && is_bare_name(#[trigger] names@[q]@) ==> out@[q].season == flat_season(names@[q]@),
            forall|q: int|
                0 <= q < i ==> {
                    let order = (#[trigger] out@[q]).season_order as int;
                    &&& 0 <= order < table@.len()
                    &&& table@[order].0 == out@[q].season
                },
            forall|q: int| 0 <= q < i ==> (#[trigger] out@[q]).episode_order == count_before(slot_seasons(out@), q, out@[q].season),
        decreases names.len() - i,
    {
        let v = flat_season_number(names[i].as_str());
        let ghost before = slot_seasons(out@);
        proof {
            lemma_seen(before, i as int);
            lemma_seen_len(before, i as int);
            assert(before.len() == i);
            assert(table@.len() == seen(before, i as int).len());
        }
        let mut k: usize = 0;
        while k < table.len() && table[k].0 != v
            invariant
                k <= table@.len(),
                forall|j: int| 0 <= j < k ==> (#[trigger] table@[j]).0 != v,
            decreases table.len() - k,
        {
            k += 1;
        }
        let ghost tab = table@;
        let slot;
        if k < table.len() {
            let c = table[k].1;
            proof {
                assert(tab.map_values(|e: (i32, i32)| e.0)[k as int] == v);
                assert(count_before(before, i as int, v) <= i) by {
                    lemma_count_le(before, i as int, v);
                }
            }
            slot = FlatSlot { season: v, season_order: k as i32, episode_order: c };
            table.set(k, (v, c + 1));
        } else {
            proof {
                let keys = tab.map_values(|e: (i32, i32)| e.0);
                assert forall|j: int| 0 <= j < keys.len() implies #[trigger] keys[j] != v by {
                    assert(tab[j].0 != v);
                }
                assert(!seen(before, i as int).contains(v));
                assert(count_before(before, i as int, v) == 0);
                assert(tab.len() == seen(before, i as int).len());
                assert(seen(before, i as int).len() <= i) by {
                    lemma_seen_len(before, i as int);
                }
            }
            slot = FlatSlot { season: v, season_order: table.len() as i32, episode_order: 0 };
            table.push((v, 1));
        }
        out.push(slot);
        proof {
            let after = slot_seasons(out@);
            assert(after =~= before.push(v));
            assert(after.take(i as int) =~= before);
            assert(before.take(i as int) =~= before);
            lemma_seen_prefix(after, before, i as int);
            lemma_count_prefix(after, before, i as int);
            assert(after[i as int] == v);
            assert(table@.map_values(|e: (i32, i32)| e.0) =~= seen(after, i as int + 1));
            assert forall|kk: int| 0 <= kk < table@.len() implies (#[trigger] table@[kk]).1 == count_before(
                after,
                i as int + 1,
                table@[kk].0,
            ) by {
                let w = table@[kk].0;
                assert(count_before(after, i as int, w) == count_before(before, i as int, w));
                if kk < tab.len() {
                    assert(tab.map_values(|e: (i32, i32)| e.0)[kk] == tab[kk].0);
                    if kk == k as int {
                        assert(w == v);
                    } else {
                        assert(table@[kk] == tab[kk]);
                        assert(w != v) by {
                            let keys = tab.map_values(|e: (i32, i32)| e.0);
                            assert(keys[kk] == w);
                            if k < tab.len() {
                                assert(keys[k as int] == v);
                                lemma_seen(before, i as int);
                            }
                        }
                    }
                } else {
                    assert(w == v);
                }
            }
        }
        i += 1;
    }
    proof {
        assert(slot_seasons(out@).len() == out@.len());
        assert forall|q: int| 0 <= q < out@.len() implies {
            let order = (#[trigger] out@[q]).season_order as int;
            &&& 0 <= order < seen(slot_seasons(out@), out@.len() as int).len()
            &&& seen(slot_seasons(out@), out@.len() as int)[order] == out@[q].season
        } by {
            let order = out@[q].season_order as int;
            assert(table@.map_values(|e: (i32, i32)| e.0)[order] == table@[order].0);
        }
    }
    out
}

proof fn lemma_count_le(s: Seq<i32>, i: int, v: i32)
    requires
        0 <= i,
    ensures
        0 <= count_before(s, i, v) <= i,
    decreases i,
{
    if i > 0 {
        lemma_count_le(s, i - 1, v);
    }
}

proof fn lemma_seen_len(s: Seq<i32>, n: int)
    requires
        0 <= n,
    ensures
        seen(s, n).len() <= n,
    decreases n,
{
    if n > 0 {
        lemma_seen_len(s, n - 1);
    }
}

/// `seen` and `count_before` look only at the prefix they count.
proof fn lemma_seen_prefix(a: Seq<i32>, b: Seq<i32>, n: int)
    requires
        0 <= n <= a.len(),
        n <= b.len(),
        a.take(n) == b.take(n),
    ensures
        seen(a, n) == seen(b, n),
    decreases n,
{
    if n > 0 {
        assert(a.take(n - 1) =~= a.take(n).take(n - 1));
        assert(b.take(n - 1) =~= b.take(n).take(n - 1));
        lemma_seen_prefix(a, b, n - 1);
        assert(a[n - 1] == a.take(n)[n - 1]);
        assert(b[n - 1] == b.take(n)[n - 1]);
    }
}

proof fn lemma_count_prefix(a: Seq<i32>, b: Seq<i32>, n: int)
    requires
        0 <= n <= a.len(),
        n <= b.len(),
        a.take(n) == b.take(n),
    ensures
        forall|q: int, v: i32| 0 <= q <= n ==> #[trigger] count_before(a, q, v) == count_before(b, q, v),
    decreases n,
{
    if n > 0 {
        assert(a.take(n - 1) =~= a.take(n).take(n - 1));
        assert(b.take(n - 1) =~= b.take(n).take(n - 1));
        lemma_count_prefix(a, b, n - 1);
        assert(a[n - 1] == a.take(n)[n - 1]);
        assert(b[n - 1] == b.take(n)[n - 1]);
        assert forall|q: int, v: i32| 0 <= q <= n implies #[trigger] count_before(a, q, v) == count_before(b, q, v) by {
            if q == n {
                assert(count_before(a, n - 1, v) == count_before(b, n - 1, v));
            }
        }
    }
}

// ---------------------------------------------------------------------------
// Rescan: catalog entries against the folders on disk
// ---------------------------------------------------------------------------

/// The kind a rel path was found as on disk (`true`: show); the last
/// finding of a path counts.
pub open spec fn disk_kind(disk: Seq<(String, bool)>, p: Seq<char>) -> Option<bool>
    decreases disk.len(),
{
    if disk.len() == 0 {
        None
    } else if disk.last().0@ == p {
        Some(disk.last().1)
    } else {
        disk_kind(disk.drop_last(), p)
    }
}

/// A catalog row `(id, folder, is_show)` is stale when its folder is gone
/// from disk or now holds the other kind.
pub open spec fn row_stale(disk: Seq<(String, bool)>, row: (i64, String, bool)) -> bool {
    match disk_kind(disk, row.1@) {
        None => true,
        Some(k) => k != row.2,
    }
}

/// Ids of the stale rows, in catalog order.
pub open spec fn stale_ids(disk: Seq<(String, bool)>, db: Seq<(i64, String, bool)>) -> Seq<i64>
    decreases db.len(),
{
    if db.len() == 0 {
        Seq::empty()
    } else {
        let rest = stale_ids(disk, db.drop_last());
        if row_stale(disk, db.last()) {
            rest.push(db.last().0)
        } else {
            rest
        }
    }
}

/// A folder survives when the catalog has it and none of its rows is stale.
pub open spec fn survives(disk: Seq<(String, bool)>, db: Seq<(i64, String, bool)>, p: Seq<char>) -> bool {
    &&& exists|i: int| 0 <= i < db.len() && (#[trigger] db[i]).1@ == p
    &&& forall|i: int| 0 <= i < db.len() && (#[trigger] db[i]).1@ == p ==> !row_stale(disk, db[i])
}

/// Rows of `db[..n]` whose folder survives, as (id, folder), in catalog
/// order.
pub open spec fn kept_rows(disk: Seq<(String, bool)>, db: Seq<(i64, String, bool)>, n: int) -> Seq<(i64, Seq<char>)>
    decreases n,
{
    if n <= 0 {
        Seq::empty()
    } else {
        let rest = kept_rows(disk, db, n - 1);
        if survives(disk, db, db[n - 1].1@) {
            rest.push((db[n - 1].0, db[n - 1].1@))
        } else {
            rest
        }
    }
}

/// What a rescan does to the catalog's movies and shows.
pub struct EntryRescan {
    /// Rows to delete (folder gone, or reclassified).
    pub delete: Vec<i64>,
    /// Folders to add as new entries, with their kind (`true`: show), in
    /// path order.
    pub add: Vec<(String, bool)>,
    /// Surviving rows whose artwork and extras are to be synced.
    pub keep: Vec<(i64, String)>,
}

fn disk_kind_of(disk: &[(String, bool)], p: &str) -> (r: Option<bool>)
    ensures
        r == disk_kind(disk@, p@),
{
    let mut j: usize = disk.len();
    proof {
        assert(disk@.take(j as int) =~= disk@);
    }
    while j > 0
        invariant
            j <= disk@.len(),
            disk_kind(disk@, p@) == disk_kind(disk@.take(j as int), p@),
        decreases j,
    {
        let ghost t = disk@.take(j as int);
        proof {
            assert(t.last() == disk@[j - 1]);
            assert(t.drop_last() =~= disk@.take(j - 1));
        }
        if crate::text::str_eq(disk[j - 1].0.as_str(), p) {
            return Some(disk[j - 1].1);
        }
        j -= 1;
    }
    None
}

/// Whether folder `p` survives (see `survives`), given each row's staleness.
fn folder_survives(db: &[(i64, String, bool)], stale: &Vec<bool>, p: &str, Ghost(disk): Ghost<Seq<(String, bool)>>) -> (b: bool)
    requires
        stale@.len() == db@.len(),
        forall|i: int| 0 <= i < db@.len() ==> #[trigger] stale@[i] == row_stale(disk, db@[i]),
    ensures
        b == survives(disk, db@, p@),
{
    let mut found = false;
    let mut i: usize = 0;
    while i < db.len()
        invariant
            i <= db@.len(),
            stale@.len() == db@.len(),
            forall|k: int| 0 <= k < db@.len() ==> #[trigger] stale@[k] == row_stale(disk, db@[k]),
            found == exists|k: int| 0 <= k < i && (#[trigger] db@[k]).1@ == p@,
            forall|k: int| 0 <= k < i && (#[trigger] db@[k]).1@ == p@ ==> !row_stale(disk, db@[k]),
        decreases db.len() - i,
    {
        if crate::text::str_eq(db[i].1.as_str(), p) {
            if stale[i] {
                return false;
            }
            found = true;
        }
        i += 1;
    }
    found
}

/// Reconcile the catalog's movie and show rows `db` (`(id, folder,
/// is_show)`) with the entry folders found on disk `disk` (`(rel path,
/// is_show)`): delete stale rows, add every folder that no surviving row
/// holds, keep the rest.
pub fn plan_entry_rescan(disk: &[(String, bool)], db: &[(i64, String, bool)]) -> (r: EntryRescan)
    ensures
        r.delete@ == stale_ids(disk@, db@),
        r.keep@.map_values(|x: (i64, String)| (x.0, x.1@)) == kept_rows(disk@, db@, db@.len() as int),
        forall|a: int, b: int| 0 <= a < b < r.add@.len() ==> str_lt((#[trigger] r.add@[a]).0@, (#[trigger] r.add@[b]).0@),
        forall|q: int|
            0 <= q < r.add@.len() ==> disk_kind(disk@, (#[trigger] r.add@[q]).0@) == Some(r.add@[q].1) && !survives(
                disk@,
                db@,
                r.add@[q].0@,
            ),
        forall|j: int|
            0 <= j < disk@.len() && !survives(disk@, db@, (#[trigger] disk@[j]).0@) ==> exists|q: int|
                0 <= q < r.add@.len() && (#[trigger] r.add@[q]).0@ == disk@[j].0@,
{
    // Staleness of each row, and the rows to delete.
    let mut stale: Vec<bool> = Vec::new();
    let mut delete: Vec<i64> = Vec::new();
    let mut i: usize = 0;
    while i < db.len()
        invariant
            i <= db@.len(),
            stale@.len() == i,
            forall|k: int| 0 <= k < i ==> #[trigger] stale@[k] == row_stale(disk@, db@[k]),
            delete@ == stale_ids(disk@, db@.take(i as int)),
        decreases db.len() - i,
    {
        let k = disk_kind_of(disk, db[i].1.as_str());
        let st = match k {
            None => true,
            Some(v) => v != db[i].2,
        };
        proof {
            assert(db@.take(i as int + 1).drop_last() =~= db@.take(i as int));
            assert(db@.take(i as int + 1).last() == db@[i as int]);
        }
        if st {
            delete.push(db[i].0);
        }
        stale.push(st);
        i += 1;
    }
    proof {
        assert(db@.take(db@.len() as int) =~= db@);
    }
    // Surviving rows to keep.
    let mut keep: Vec<(i64, String)> = Vec::new();
    let mut i: usize = 0;
    while i < db.len()
        invariant
            i <= db@.len(),
            stale@.len() == db@.len(),
            forall|k: int| 0 <= k < db@.len() ==> #[trigger] stale@[k] == row_stale(disk@, db@[k]),
            keep@.map_values(|x: (i64, String)| (x.0, x.1@)) == kept_rows(disk@, db@, i as int),
        decreases db.len() - i,
    {
        if folder_survives(db, &stale, db[i].1.as_str(), Ghost(disk@)) {
            let ghost before = keep@;
            keep.push((db[i].0, db[i].1.clone()));
            proof {
                assert(keep@.map_values(|x: (i64, String)| (x.0, x.1@)) =~= before.map_values(
                    |x: (i64, String)| (x.0, x.1@),
                ).push((db@[i as int].0, db@[i as int].1@)));
            }
        }
        i += 1;
    }
    // New folders, in path order, one per path.
    let mut add: Vec<(String, bool)> = Vec::new();
    let mut j: usize = 0;
    while j < disk.len()
        invariant
            j <= disk@.len(),
            stale@.len() == db@.len(),
            forall|k: int| 0 <= k < db@.len() ==> #[trigger] stale@[k] == row_stale(disk@, db@[k]),
            forall|a: int, b: int| 0 <= a < b < add@.len() ==> str_lt((#[trigger] add@[a]).0@, (#[trigger] add@[b]).0@),
            forall|q: int|
                0 <= q < add@.len() ==> disk_kind(disk@.take(j as int), (#[trigger] add@[q]).0@) == Some(add@[q].1)
                    && !survives(disk@, db@, add@[q].0@),
            forall|k: int|
                0 <= k < j && !survives(disk@, db@, (#[trigger] disk@[k]).0@) ==> exists|q: int|
                    0 <= q < add@.len() && (#[trigger] add@[q]).0@ == disk@[k].0@,
        decreases disk.len() - j,
    {
        let ghost t1 = disk@.take(j as int + 1);
        proof {
            assert(t1.drop_last() =~= disk@.take(j as int));
            assert(t1.last() == disk@[j as int]);
        }
        if !folder_survives(db, &stale, disk[j].0.as_str(), Ghost(disk@)) {
            let x = disk[j].0.clone();
            let kind = disk[j].1;
            let mut pos: usize = 0;
            while pos < add.len() && str_less(add[pos].0.as_str(), x.as_str())
                invariant
                    pos <= add@.len(),
                    forall|q: int| 0 <= q < pos ==> str_lt((#[trigger] add@[q]).0@, x@),
                decreases add.len() - pos,
            {
                pos += 1;
            }
            let ghost before = add@;
            if pos < add.len() && crate::text::str_eq(add[pos].0.as_str(), x.as_str()) {
                add.set(pos, (x, kind));
                proof {
                    assert forall|a: int, b: int| 0 <= a < b < add@.len() implies str_lt(
                        (#[trigger] add@[a]).0@,
                        (#[trigger] add@[b]).0@,
                    ) by {
                        assert(add@[a].0@ == before[a].0@ && add@[b].0@ == before[b].0@);
                    }
                    assert forall|q: int| 0 <= q < add@.len() implies disk_kind(t1, (#[trigger] add@[q]).0@) == Some(
                        add@[q].1,
                    ) && !survives(disk@, db@, add@[q].0@) by {
                        assert(add@[q].0@ == before[q].0@);
                        if q != pos {
                            crate::session::lemma_str_lt_order(before[q].0@, before[pos as int].0@, x@);
                            if q < pos {
                                assert(str_lt(before[q].0@, before[pos as int].0@));
                            } else {
                                assert(str_lt(before[pos as int].0@, before[q].0@));
                            }
                        }
                    }
                    assert forall|k: int|
                        0 <= k < j + 1 && !survives(disk@, db@, (#[trigger] disk@[k]).0@) implies exists|q: int|
                        0 <= q < add@.len() && (#[trigger] add@[q]).0@ == disk@[k].0@ by {
                        if k < j {
                            let q = choose|q: int| 0 <= q < before.len() && (#[trigger] before[q]).0@ == disk@[k].0@;
                            assert(add@[q].0@ == before[q].0@);
                        } else {
                            assert(add@[pos as int].0@ == disk@[k].0@);
                        }
                    }
                }
            } else {
                proof {
                    assert forall|q: int| 0 <= q < before.len() implies (#[trigger] before[q]).0@ != x@ by {
                        crate::session::lemma_str_lt_order(x@, x@, x@);
                        if q > pos {
                            crate::session::lemma_str_lt_order(x@, before[pos as int].0@, before[q].0@);
                            crate::session::lemma_str_lt_order(before[pos as int].0@, x@, x@);
                        }
                    }
                    assert forall|q: int| pos <= q < before.len() implies str_lt(x@, (#[trigger] before[q]).0@) by {
                        crate::session::lemma_str_lt_order(x@, before[pos as int].0@, before[q].0@);
                        crate::session::lemma_str_lt_order(before[pos as int].0@, x@, x@);
                    }
                }
                add.insert(pos, (x, kind));
                proof {
                    assert forall|a: int, b: int| 0 <= a < b < add@.len() implies str_lt(
                        (#[trigger] add@[a]).0@,
                        (#[trigger] add@[b]).0@,
                    ) by {
                        if a < pos && b == pos {
                        } else if a < pos && b > pos {
                            assert(add@[b] == before[b - 1]);
                            crate::session::lemma_str_lt_order(before[a].0@, x@, before[b - 1].0@);
                        } else if a == pos {
                            assert(add@[b] == before[b - 1]);
                        } else if b < pos {
                            assert(add@[a] == before[a] && add@[b] == before[b]);
                        } else {
                            assert(add@[a] == before[a - 1] && add@[b] == before[b - 1]);
                        }
                    }
                    assert forall|q: int| 0 <= q < add@.len() implies disk_kind(t1, (#[trigger] add@[q]).0@) == Some(
                        add@[q].1,
                    ) && !survives(disk@, db@, add@[q].0@) by {
                        if q < pos {
                            assert(add@[q] == before[q]);
                        } else if q > pos {
                            assert(add@[q] == before[q - 1]);
                        }
                    }
                    assert forall|k: int|
                        0 <= k < j + 1 && !survives(disk@, db@, (#[trigger] disk@[k]).0@) implies exists|q: int|
                        0 <= q < add@.len() && (#[trigger] add@[q]).0@ == disk@[k].0@ by {
                        if k < j {
                            let q = choose|q: int| 0 <= q < before.len() && (#[trigger] before[q]).0@ == disk@[k].0@;
                            if q < pos {
                                assert(add@[q] == before[q]);
                            } else {
                                assert(add@[q + 1] == before[q]);
                            }
                        } else {
                            assert(add@[pos as int].0@ == disk@[k].0@);
                        }
                    }
                }
            }
        } else {
            proof {
                assert forall|q: int| 0 <= q < add@.len() implies disk_kind(t1, (#[trigger] add@[q]).0@) == Some(
                    add@[q].1,
                ) by {
                    assert(add@[q].0@ != disk@[j as int].0@);
                }
            }
        }
        j += 1;
    }
    proof {
        assert(disk@.take(disk@.len() as int) =~= disk@);
    }
    EntryRescan { delete, add, keep }
}

/// The rows of `db` a rescan leaves in place (the ones that are not stale),
/// in catalog order.
pub open spec fn unstale_rows(disk: Seq<(String, bool)>, db: Seq<(i64, String, bool)>) -> Seq<(i64, String, bool)>
    decreases db.len(),
{
    if db.len() == 0 {
        Seq::empty()
    } else {
        let rest = unstale_rows(disk, db.drop_last());
        if row_stale(disk, db.last()) {
            rest
        } else {
            rest.push(db.last())
        }
    }
}

/// The catalog after a rescan's plan is carried out: stale rows deleted and
/// each folder of `add` added with its kind under the new ids `ids`.
pub open spec fn rescanned(
    disk: Seq<(String, bool)>,
    db: Seq<(i64, String, bool)>,
    add: Seq<(String, bool)>,
    ids: Seq<i64>,
) -> Seq<(i64, String, bool)> {
    unstale_rows(disk, db) + Seq::new(add.len(), |q: int| (ids[q], add[q].0, add[q].1))
}

proof fn lemma_unstale_rows(disk: Seq<(String, bool)>, db: Seq<(i64, String, bool)>)
    ensures
        forall|k: int| 0 <= k < unstale_rows(disk, db).len() ==> !row_stale(disk, #[trigger] unstale_rows(disk, db)[k]),
        forall|i: int| 0 <= i < db.len() && !row_stale(disk, #[trigger] db[i]) ==> unstale_rows(disk, db).contains(db[i]),
    decreases db.len(),
{
    if db.len() > 0 {
        let rest = unstale_rows(disk, db.drop_last());
        lemma_unstale_rows(disk, db.drop_last());
        let cur = unstale_rows(disk, db);
        assert forall|k: int| 0 <= k < cur.len() implies !row_stale(disk, #[trigger] cur[k]) by {
            if k < rest.len() {
                assert(cur[k] == rest[k]);
            }
        }
        assert forall|i: int| 0 <= i < db.len() && !row_stale(disk, #[trigger] db[i]) implies cur.contains(db[i]) by {
            if i < db.len() - 1 {
                assert(db.drop_last()[i] == db[i]);
                assert(rest.contains(db[i]));
                let k = choose|k: int| 0 <= k < rest.len() && rest[k] == db[i];
                assert(cur[k] == db[i]);
            } else {
                assert(cur[rest.len() as int] == db[i]);
            }
        }
    }
}

proof fn lemma_no_stale_ids(disk: Seq<(String, bool)>, db: Seq<(i64, String, bool)>)
    requires
        forall|k: int| 0 <= k < db.len() ==> !row_stale(disk, #[trigger] db[k]),
    ensures
        stale_ids(disk, db) == Seq::<i64>::empty(),
    decreases db.len(),
{
    if db.len() > 0 {
        assert forall|k: int| 0 <= k < db.drop_last().len() implies !row_stale(disk, #[trigger] db.drop_last()[k]) by {
            assert(db.drop_last()[k] == db[k]);
        }
        lemma_no_stale_ids(disk, db.drop_last());
    }
}

/// A rescan settles: once the catalog is brought in line with a rescan's
/// plan (stale rows deleted, every folder the plan adds added as the kind it
/// was found as), a second rescan of the same folders finds no stale row,
/// and every folder on disk survives, so there is nothing to add either.
pub proof fn law_rescan_settles(
    disk: Seq<(String, bool)>,
    db: Seq<(i64, String, bool)>,
    add: Seq<(String, bool)>,
    ids: Seq<i64>,
)
    requires
        ids.len() == add.len(),
        forall|q: int| 0 <= q < add.len() ==> disk_kind(disk, (#[trigger] add[q]).0@) == Some(add[q].1),
        forall|j: int|
            0 <= j < disk.len() && !survives(disk, db, (#[trigger] disk[j]).0@) ==> exists|q: int|
                0 <= q < add.len() && (#[trigger] add[q]).0@ == disk[j].0@,
    ensures
        stale_ids(disk, rescanned(disk, db, add, ids)) == Seq::<i64>::empty(),
        forall|j: int| 0 <= j < disk.len() ==> survives(disk, rescanned(disk, db, add, ids), (#[trigger] disk[j]).0@),
{
    let kept = unstale_rows(disk, db);
    let after = rescanned(disk, db, add, ids);
    lemma_unstale_rows(disk, db);
    assert forall|k: int| 0 <= k < after.len() implies !row_stale(disk, #[trigger] after[k]) by {
        if k < kept.len() {
            assert(after[k] == kept[k]);
        } else {
            let q = k - kept.len();
            assert(after[k] == (ids[q], add[q].0, add[q].1));
            assert(disk_kind(disk, add[q].0@) == Some(add[q].1));
        }
    }
    lemma_no_stale_ids(disk, after);
    assert forall|j: int| 0 <= j < disk.len() implies survives(disk, after, (#[trigger] disk[j]).0@) by {
        let p = disk[j].0@;
        if survives(disk, db, p) {
            let i = choose|i: int| 0 <= i < db.len() && (#[trigger] db[i]).1@ == p;
            assert(!row_stale(disk, db[i]));
            assert(kept.contains(db[i]));
            let k = choose|k: int| 0 <= k < kept.len() && kept[k] == db[i];
            assert(after[k] == kept[k]);
            assert(after[k].1@ == p);
        } else {
            let q = choose|q: int| 0 <= q < add.len() && (#[trigger] add[q]).0@ == p;
            let k = kept.len() + q;
            assert(after[k] == (ids[q], add[q].0, add[q].1));
            assert(after[k].1@ == p);
        }
    }
}

// ---------------------------------------------------------------------------
// Rescan: a show's seasons and episodes
// ---------------------------------------------------------------------------

/// The distinct values of `v`, ascending.
pub fn sorted_distinct(v: &[i32]) -> (r: Vec<i32>)
    ensures
        forall|a: int, b: int| 0 <= a < b < r@.len() ==> #[trigger] r@[a] < #[trigger] r@[b],
        forall|x: i32| r@.contains(x) <==> v@.contains(x),
{
    let mut out: Vec<i32> = Vec::new();
    let mut i: usize = 0;
    while i < v.len()
        invariant
            i <= v@.len(),
            forall|a: int, b: int| 0 <= a < b < out@.len() ==> #[trigger] out@[a] < #[trigger] out@[b],
            forall|x: i32| out@.contains(x) <==> v@.take(i as int).contains(x),
        decreases v.len() - i,
    {
        let x = v[i];
        let mut pos: usize = 0;
        while pos < out.len() && out[pos] < x
            invariant
                pos <= out@.len(),
                forall|q: int| 0 <= q < pos ==> #[trigger] out@[q] < x,
            decreases out.len() - pos,
        {
            pos += 1;
        }
        let ghost before = out@;
        if pos == out.len() || out[pos] != x {
            out.insert(pos, x);
            proof {
                assert forall|a: int, b: int| 0 <= a < b < out@.len() implies #[trigger] out@[a] < #[trigger] out@[b] by {
                    if a < pos && b > pos {
                        assert(out@[b] == before[b - 1]);
                    } else if a == pos && b > pos {
                        assert(out@[b] == before[b - 1]);
                        assert(before[pos as int] > x);
                    } else if a > pos {
                        assert(out@[a] == before[a - 1] && out@[b] == before[b - 1]);
                    } else if b < pos {
                        assert(out@[a] == before[a] && out@[b] == before[b]);
                    }
                }
            }
        }
        proof {
            assert(v@.take(i as int + 1) =~= v@.take(i as int).push(x));
            assert forall|y: i32| out@.contains(y) <==> v@.take(i as int + 1).contains(y) by {
                if out@.contains(y) {
                    let k = choose|k: int| 0 <= k < out@.len() && out@[k] == y;
                    if y != x {
                        if k < pos {
                            assert(before[k] == y);
                        } else if out@.len() > before.len() {
                            assert(before[k - 1] == y);
                        } else {
                            assert(before[k] == y);
                        }
                        assert(before.contains(y));
                        assert(v@.take(i as int).contains(y));
                        let t0 = v@.take(i as int);
                        let m = choose|m: int| 0 <= m < t0.len() && t0[m] == y;
                        assert(v@.take(i as int + 1)[m] == y);
                    } else {
                        assert(v@.take(i as int + 1)[i as int] == y);
                    }
                }
                if v@.take(i as int + 1).contains(y) {
                    let t1 = v@.take(i as int + 1);
                    let m = choose|m: int| 0 <= m < t1.len() && t1[m] == y;
                    if m < i {
                        assert(v@.take(i as int)[m] == y);
                        assert(before.contains(y));
                        let k = choose|k: int| 0 <= k < before.len() && before[k] == y;
                        if out@.len() > before.len() {
                            if k < pos {
                                assert(out@[k] == y);
                            } else {
                                assert(out@[k + 1] == y);
                            }
                        } else {
                            assert(out@[k] == y);
                        }
                    } else {
                        assert(y == x);
                        assert(out@[pos as int] == x);
                    }
                }
            }
        }
        i += 1;
    }
    proof {
        assert(v@.take(v@.len() as int) =~= v@);
    }
    out
}

/// A stored season number, read as the 32-bit number it is compared as.
pub open spec fn stored_number(num: Option<i64>) -> Option<i32> {
    match num {
        Some(m) => Some(m as i32),
        None => None,
    }
}

/// A catalog season row is `(id, folder, season number)`; a flat show keeps
/// the rows in its own folder whose number a loose file carries.
pub open spec fn flat_row_kept(show: Seq<char>, seasons: Seq<i32>, row: (i64, String, Option<i64>)) -> bool {
    &&& row.1@ == show
    &&& match stored_number(row.2) {
        Some(n) => seasons.contains(n),
        None => false,
    }
}

/// Ids of the season rows a flat show drops (wrong folder, or a number no
/// loose file carries any more), in catalog order.
pub open spec fn flat_dropped(show: Seq<char>, seasons: Seq<i32>, db: Seq<(i64, String, Option<i64>)>) -> Seq<i64>
    decreases db.len(),
{
    if db.len() == 0 {
        Seq::empty()
    } else {
        let rest = flat_dropped(show, seasons, db.drop_last());
        if flat_row_kept(show, seasons, db.last()) {
            rest
        } else {
            rest.push(db.last().0)
        }
    }
}

/// The catalog already has a flat season numbered `n` for this show.
pub open spec fn flat_season_present(show: Seq<char>, db: Seq<(i64, String, Option<i64>)>, n: i32) -> bool {
    exists|i: int| 0 <= i < db.len() && (#[trigger] db[i]).1@ == show && stored_number(db[i].2) == Some(n)
}

/// Some season to create is numbered `n`.
pub open spec fn plans_season(ins: Seq<SeasonInsert>, n: i32) -> bool {
    exists|q: int| 0 <= q < ins.len() && (#[trigger] ins[q]).number == n
}

/// A season to create.
pub struct SeasonInsert {
    pub number: i32,
    pub title: String,
    pub sort_order: i32,
}

/// Reconcile a flat show's season rows `db` with the seasons its loose
/// files carry (`loose_seasons`, see `flat_season_number`): drop the rows
/// that are no valid flat season, and create, in ascending number, each
/// carried season the catalog lacks, numbering them on from the row count.
pub fn plan_flat_seasons(show_rel: &str, loose_seasons: &[i32], db: &[(i64, String, Option<i64>)]) -> (r: (
    Vec<i64>,
    Vec<SeasonInsert>,
))
    requires
        db@.len() + loose_seasons@.len() <= i32::MAX,
    ensures
        r.0@ == flat_dropped(show_rel@, loose_seasons@, db@),
        forall|a: int, b: int| 0 <= a < b < r.1@.len() ==> (#[trigger] r.1@[a]).number < (#[trigger] r.1@[b]).number,
        forall|n: i32| #[trigger] plans_season(r.1@, n) <==> (loose_seasons@.contains(n) && !flat_season_present(show_rel@, db@, n)),
        forall|q: int|
            0 <= q < r.1@.len() ==> (#[trigger] r.1@[q]).title@ == season_title(r.1@[q].number as int)
                && r.1@[q].sort_order == db@.len() + q,
{
    let groups = sorted_distinct(loose_seasons);
    let mut dropped: Vec<i64> = Vec::new();
    let mut i: usize = 0;
    while i < db.len()
        invariant
            i <= db@.len(),
            forall|x: i32| groups@.contains(x) <==> loose_seasons@.contains(x),
            dropped@ == flat_dropped(show_rel@, loose_seasons@, db@.take(i as int)),
        decreases db.len() - i,
    {
        let keep = crate::text::str_eq(db[i].1.as_str(), show_rel) && match db[i].2 {
            Some(n) => contains_i32(&groups, n as i32),
            None => false,
        };
        proof {
            assert(db@.take(i as int + 1).drop_last() =~= db@.take(i as int));
            assert(db@.take(i as int + 1).last() == db@[i as int]);
        }
        if !keep {
            dropped.push(db[i].0);
        }
        i += 1;
    }
    proof {
        assert(db@.take(db@.len() as int) =~= db@);
        lemma_distinct_bound(loose_seasons@, groups@);
    }
    let mut inserts: Vec<SeasonInsert> = Vec::new();
    let mut g: usize = 0;
    while g < groups.len()
        invariant
            g <= groups@.len(),
            groups@.len() <= loose_seasons@.len(),
            db@.len() + loose_seasons@.len() <= i32::MAX,
            inserts@.len() <= g,
            forall|a: int, b: int| 0 <= a < b < groups@.len() ==> #[trigger] groups@[a] < #[trigger] groups@[b],
            forall|x: i32| groups@.contains(x) <==> loose_seasons@.contains(x),
            forall|a: int, b: int| 0 <= a < b < inserts@.len() ==> (#[trigger] inserts@[a]).number < (#[trigger] inserts@[b]).number,
            forall|q: int| 0 <= q < inserts@.len() ==> exists|k: int| 0 <= k < g && groups@[k] == (#[trigger] inserts@[q]).number,
            forall|n: i32|
                (exists|q: int| 0 <= q < inserts@.len() && (#[trigger] inserts@[q]).number == n) <==> (exists|k: int|
                    0 <= k < g && #[trigger] groups@[k] == n) && !flat_season_present(show_rel@, db@, n),
            forall|q: int|
                0 <= q < inserts@.len() ==> (#[trigger] inserts@[q]).title@ == season_title(inserts@[q].number as int)
                    && inserts@[q].sort_order == db@.len() + q,
        decreases groups.len() - g,
    {
        let n = groups[g];
        let present = flat_present(show_rel, db, n);
        let ghost before = inserts@;
        if !present {
            let title = flat_season_title(n);
            let order = db.len() as i32 + inserts.len() as i32;
            inserts.push(SeasonInsert { number: n, title, sort_order: order });
            proof {
                assert forall|a: int, b: int| 0 <= a < b < inserts@.len() implies (#[trigger] inserts@[a]).number
                    < (#[trigger] inserts@[b]).number by {
                    if b == before.len() {
                        let k = choose|k: int| 0 <= k < g && groups@[k] == (#[trigger] before[a]).number;
                        assert(before[a] == inserts@[a]);
                    } else {
                        assert(before[a] == inserts@[a] && before[b] == inserts@[b]);
                    }
                }
            }
        }
        proof {
            assert forall|q: int| 0 <= q < inserts@.len() implies exists|k: int|
                0 <= k < g + 1 && groups@[k] == (#[trigger] inserts@[q]).number by {
                if q < before.len() {
                    assert(inserts@[q] == before[q]);
                    let k = choose|k: int| 0 <= k < g && groups@[k] == (#[trigger] before[q]).number;
                } else {
                    assert(groups@[g as int] == inserts@[q].number);
                }
            }
            assert forall|m: i32|
                (exists|q: int| 0 <= q < inserts@.len() && (#[trigger] inserts@[q]).number == m) <==> (exists|k: int|
                    0 <= k < g + 1 && #[trigger] groups@[k] == m) && !flat_season_present(show_rel@, db@, m) by {
                if exists|q: int| 0 <= q < inserts@.len() && (#[trigger] inserts@[q]).number == m {
                    let q = choose|q: int| 0 <= q < inserts@.len() && (#[trigger] inserts@[q]).number == m;
                    if q < before.len() {
                        assert(inserts@[q] == before[q]);
                        let k = choose|k: int| 0 <= k < g && #[trigger] groups@[k] == m;
                    } else {
                        assert(groups@[g as int] == m);
                    }
                }
                if (exists|k: int| 0 <= k < g + 1 && #[trigger] groups@[k] == m) && !flat_season_present(show_rel@, db@, m) {
                    let k = choose|k: int| 0 <= k < g + 1 && #[trigger] groups@[k] == m;
                    if k < g {
                        let q = choose|q: int| 0 <= q < before.len() && (#[trigger] before[q]).number == m;
                        assert(inserts@[q] == before[q]);
                    } else {
                        assert(inserts@[before.len() as int].number == m);
                    }
                }
            }
            assert forall|q: int| 0 <= q < inserts@.len() implies (#[trigger] inserts@[q]).title@ == season_title(
                inserts@[q].number as int,
            ) && inserts@[q].sort_order == db@.len() + q by {
                if q < before.len() {
                    assert(inserts@[q] == before[q]);
                }
            }
        }
        g += 1;
    }
    proof {
        assert forall|n: i32| #[trigger] plans_season(inserts@, n) <==> (loose_seasons@.contains(n)
                && !flat_season_present(show_rel@, db@, n)) by {
            let in_groups = exists|k: int| 0 <= k < groups@.len() && #[trigger] groups@[k] == n;
            assert(in_groups <==> groups@.contains(n)) by {
                if groups@.contains(n) {
                    let k = choose|k: int| 0 <= k < groups@.len() && groups@[k] == n;
                    assert(groups@[k] == n);
                }
            }
            assert(in_groups <==> loose_seasons@.contains(n));
        }
    }
    (dropped, inserts)
}

fn contains_i32(v: &Vec<i32>, x: i32) -> (b: bool)
    ensures
        b == v@.contains(x),
{
    let mut i: usize = 0;
    while i < v.len()
        invariant
            i <= v@.len(),
            forall|k: int| 0 <= k < i ==> v@[k] != x,
        decreases v.len() - i,
    {
        if v[i] == x {
            return true;
        }
        i += 1;
    }
    false
}

fn flat_present(show_rel: &str, db: &[(i64, String, Option<i64>)], n: i32) -> (b: bool)
    ensures
        b == flat_season_present(show_rel@, db@, n),
{
    let mut i: usize = 0;
    while i < db.len()
        invariant
            i <= db@.len(),
            forall|k: int| 0 <= k < i ==> !((#[trigger] db@[k]).1@ == show_rel@ && stored_number(db@[k].2) == Some(n)),
        decreases db.len() - i,
    {
        if crate::text::str_eq(db[i].1.as_str(), show_rel) {
            if let Some(m) = db[i].2 {
                if m as i32 == n {
                    return true;
                }
            }
        }
        i += 1;
    }
    false
}

proof fn lemma_distinct_bound(v: Seq<i32>, d: Seq<i32>)
    requires
        forall|a: int, b: int| 0 <= a < b < d.len() ==> #[trigger] d[a] < #[trigger] d[b],
        forall|x: i32| d.contains(x) <==> v.contains(x),
    ensures
        d.len() <= v.len(),
{
    assert(d.no_duplicates()) by {
        assert forall|a: int, b: int| 0 <= a < d.len() && 0 <= b < d.len() && a != b implies d[a] != d[b] by {
            if a < b {
                assert(d[a] < d[b]);
            } else {
                assert(d[b] < d[a]);
            }
        }
    }
    assert(d.to_set().subset_of(v.to_set())) by {
        assert forall|x: i32| d.to_set().contains(x) implies v.to_set().contains(x) by {
            assert(d.contains(x));
        }
    }
    d.unique_seq_to_set();
    vstd::seq_lib::seq_to_set_is_finite(v);
    vstd::set_lib::lemma_len_subset(d.to_set(), v.to_set());
    v.lemma_cardinality_of_set();
}

/// Some of `paths` is `p`.
pub open spec fn has_path(paths: Seq<String>, p: Seq<char>) -> bool {
    exists|i: int| 0 <= i < paths.len() && (#[trigger] paths[i])@ == p
}

fn find_path(paths: &[String], p: &str) -> (b: bool)
    ensures
        b == has_path(paths@, p@),
{
    let mut i: usize = 0;
    while i < paths.len()
        invariant
            i <= paths@.len(),
            forall|k: int| 0 <= k < i ==> (#[trigger] paths@[k])@ != p@,
        decreases paths.len() - i,
    {
        if crate::text::str_eq(paths[i].as_str(), p) {
            return true;
        }
        i += 1;
    }
    false
}

/// Ids of the season rows whose folder is none of `dirs`, in catalog order.
pub open spec fn missing_seasons(dirs: Seq<String>, db: Seq<(i64, String, Option<i64>)>) -> Seq<i64>
    decreases db.len(),
{
    if db.len() == 0 {
        Seq::empty()
    } else {
        let rest = missing_seasons(dirs, db.drop_last());
        if has_path(dirs, db.last().1@) {
            rest
        } else {
            rest.push(db.last().0)
        }
    }
}

/// Reconcile a foldered show's season rows `db` with its season folders
/// `dirs` (rel paths): rows whose folder is gone are deleted; each folder is
/// either already a row (its number and title are refreshed) or new.
/// Returns the ids to delete and, per folder, whether it is already a row.
pub fn plan_folder_seasons(dirs: &[String], db: &[(i64, String, Option<i64>)]) -> (r: (Vec<i64>, Vec<bool>))
    ensures
        r.0@ == missing_seasons(dirs@, db@),
        r.1@.len() == dirs@.len(),
        forall|i: int|
            0 <= i < dirs@.len() ==> #[trigger] r.1@[i] == exists|k: int| 0 <= k < db@.len() && (#[trigger] db@[k]).1@ == dirs@[i]@,
{
    let mut gone: Vec<i64> = Vec::new();
    let mut i: usize = 0;
    while i < db.len()
        invariant
            i <= db@.len(),
            gone@ == missing_seasons(dirs@, db@.take(i as int)),
        decreases db.len() - i,
    {
        proof {
            assert(db@.take(i as int + 1).drop_last() =~= db@.take(i as int));
            assert(db@.take(i as int + 1).last() == db@[i as int]);
        }
        if !find_path(dirs, db[i].1.as_str()) {
            gone.push(db[i].0);
        }
        i += 1;
    }
    proof {
        assert(db@.take(db@.len() as int) =~= db@);
    }
    let mut present: Vec<bool> = Vec::new();
    let mut j: usize = 0;
    while j < dirs.len()
        invariant
            j <= dirs@.len(),
            present@.len() == j,
            forall|q: int|
                0 <= q < j ==> #[trigger] present@[q] == exists|k: int| 0 <= k < db@.len() && (#[trigger] db@[k]).1@ == dirs@[q]@,
        decreases dirs.len() - j,
    {
        let mut found = false;
        let mut k: usize = 0;
        while k < db.len()
            invariant
                k <= db@.len(),
                j < dirs@.len(),
                found == exists|m: int| 0 <= m < k && (#[trigger] db@[m]).1@ == dirs@[j as int]@,
            decreases db.len() - k,
        {
            if crate::text::str_eq(db[k].1.as_str(), dirs[j].as_str()) {
                found = true;
            }
            k += 1;
        }
        present.push(found);
        j += 1;
    }
    (gone, present)
}

/// Ids of the episode rows whose file is none of `disk`, in catalog order.
pub open spec fn missing_episodes(disk: Seq<String>, db: Seq<(i64, String)>) -> Seq<i64>
    decreases db.len(),
{
    if db.len() == 0 {
        Seq::empty()
    } else {
        let rest = missing_episodes(disk, db.drop_last());
        if has_path(disk, db.last().1@) {
            rest
        } else {
            rest.push(db.last().0)
        }
    }
}

/// The catalog has an episode row for file `p`.
pub open spec fn has_episode(db: Seq<(i64, String)>, p: Seq<char>) -> bool {
    exists|k: int| 0 <= k < db.len() && (#[trigger] db[k]).1@ == p
}

/// The files of `disk[..n]` without a row, each once, in the order first
/// listed.
pub open spec fn fresh_files(disk: Seq<String>, db: Seq<(i64, String)>, n: int) -> Seq<Seq<char>>
    decreases n,
{
    if n <= 0 {
        Seq::empty()
    } else {
        let rest = fresh_files(disk, db, n - 1);
        if !has_episode(db, disk[n - 1]@) && !rest.contains(disk[n - 1]@) {
            rest.push(disk[n - 1]@)
        } else {
            rest
        }
    }
}

/// Reconcile a season's episode rows `db` (`(id, file)`) with its episode
/// files on disk `disk` (rel paths): rows whose file is gone are deleted,
/// and every file without a row is added, once.
pub fn plan_episodes(disk: &[String], db: &[(i64, String)]) -> (r: (Vec<i64>, Vec<String>))
    ensures
        r.0@ == missing_episodes(disk@, db@),
        r.1@.map_values(|x: String| x@) == fresh_files(disk@, db@, disk@.len() as int),
        forall|a: int, b: int| 0 <= a < b < r.1@.len() ==> (#[trigger] r.1@[a])@ != (#[trigger] r.1@[b])@,
        forall|q: int| 0 <= q < r.1@.len() ==> has_path(disk@, (#[trigger] r.1@[q])@) && !has_episode(db@, r.1@[q]@),
        forall|j: int|
            0 <= j < disk@.len() && !has_episode(db@, (#[trigger] disk@[j])@) ==> has_path(r.1@, disk@[j]@),
{
    let mut gone: Vec<i64> = Vec::new();
    let mut i: usize = 0;
    while i < db.len()
        invariant
            i <= db@.len(),
            gone@ == missing_episodes(disk@, db@.take(i as int)),
        decreases db.len() - i,
    {
        proof {
            assert(db@.take(i as int + 1).drop_last() =~= db@.take(i as int));
            assert(db@.take(i as int + 1).last() == db@[i as int]);
        }
        if !find_path(disk, db[i].1.as_str()) {
            gone.push(db[i].0);
        }
        i += 1;
    }
    proof {
        assert(db@.take(db@.len() as int) =~= db@);
    }
    let mut add: Vec<String> = Vec::new();
    let mut j: usize = 0;
    while j < disk.len()
        invariant
            j <= disk@.len(),
            forall|a: int, b: int| 0 <= a < b < add@.len() ==> (#[trigger] add@[a])@ != (#[trigger] add@[b])@,
            forall|q: int| 0 <= q < add@.len() ==> has_path(disk@, (#[trigger] add@[q])@) && !has_episode(db@, add@[q]@),
            forall|k: int| 0 <= k < j && !has_episode(db@, (#[trigger] disk@[k])@) ==> has_path(add@, disk@[k]@),
            add@.map_values(|x: String| x@) == fresh_files(disk@, db@, j as int),
        decreases disk.len() - j,
    {
        let mut in_db = false;
        let mut k: usize = 0;
        while k < db.len()
            invariant
                k <= db@.len(),
                j < disk@.len(),
                in_db == exists|m: int| 0 <= m < k && (#[trigger] db@[m]).1@ == disk@[j as int]@,
            decreases db.len() - k,
        {
            if crate::text::str_eq(db[k].1.as_str(), disk[j].as_str()) {
                in_db = true;
            }
            k += 1;
        }
        let ghost prev = add@;
        proof {
            let views = prev.map_values(|x: String| x@);
            assert(has_path(prev, disk@[j as int]@) == views.contains(disk@[j as int]@)) by {
                if has_path(prev, disk@[j as int]@) {
                    let q = choose|q: int| 0 <= q < prev.len() && (#[trigger] prev[q])@ == disk@[j as int]@;
                    assert(views[q] == disk@[j as int]@);
                }
                if views.contains(disk@[j as int]@) {
                    let q = choose|q: int| 0 <= q < views.len() && views[q] == disk@[j as int]@;
                    assert(prev[q]@ == disk@[j as int]@);
                }
            }
            assert(in_db == has_episode(db@, disk@[j as int]@));
        }
        if !in_db && !find_path(&add, disk[j].as_str()) {
            let ghost before = add@;
            add.push(disk[j].clone());
            proof {
                assert(disk@[j as int]@ == add@[before.len() as int]@);
                assert forall|kk: int| 0 <= kk < j + 1 && !has_episode(db@, (#[trigger] disk@[kk])@) implies has_path(
                    add@,
                    disk@[kk]@,
                ) by {
                    if kk < j {
                        let q = choose|q: int| 0 <= q < before.len() && (#[trigger] before[q])@ == disk@[kk]@;
                        assert(add@[q] == before[q]);
                    } else {
                        assert(add@[before.len() as int]@ == disk@[kk]@);
                    }
                }
                assert forall|q: int| 0 <= q < add@.len() implies has_path(disk@, (#[trigger] add@[q])@) && !has_episode(
                    db@,
                    add@[q]@,
                ) by {
                    if q == before.len() {
                        assert(disk@[j as int]@ == add@[q]@);
                    } else {
                        assert(add@[q] == before[q]);
                    }
                }
                assert(add@.map_values(|x: String| x@) =~= before.map_values(|x: String| x@).push(disk@[j as int]@));
            }
        }
        j += 1;
    }
    (gone, add)
}

/// Indices of the loose files of season `season_number` (a missing number
/// reads as season 1), ascending.
pub open spec fn season_files(seasons: Seq<i32>, want: i32, n: int) -> Seq<usize>
    decreases n,
{
    if n <= 0 {
        Seq::empty()
    } else {
        let rest = season_files(seasons, want, n - 1);
        if seasons[n - 1] == want {
            rest.push((n - 1) as usize)
        } else {
            rest
        }
    }
}

/// The loose files (given by their flat seasons, see `flat_season_number`)
/// that belong to a flat season row numbered `season_number`.
pub fn flat_season_files(loose_seasons: &[i32], season_number: Option<i64>) -> (r: Vec<usize>)
    ensures
        r@ == season_files(
            loose_seasons@,
            match stored_number(season_number) {
                Some(n) => n,
                None => 1i32,
            },
            loose_seasons@.len() as int,
        ),
{
    let want: i32 = match season_number {
        Some(n) => n as i32,
        None => 1,
    };
    let mut out: Vec<usize> = Vec::new();
    let mut i: usize = 0;
    while i < loose_seasons.len()
        invariant
            i <= loose_seasons@.len(),
            out@ == season_files(loose_seasons@, want, i as int),
        decreases loose_seasons.len() - i,
    {
        if loose_seasons[i] == want {
            out.push(i);
        }
        i += 1;
    }
    out
}

} // verus!
