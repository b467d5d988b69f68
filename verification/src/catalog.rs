//! The catalog's records as the frontend and the database exchange them,
//! and the saved-order ("sort preset") logic over them.

use vstd::prelude::*;
use crate::json::{json_views, lemma_json_views, member_spec, Json, JsonValue};
use crate::text::{push_char, push_decimal_i64, push_str, str_eq, decimal_int};

verus! {

/// A media library (a row of the library table).
pub struct Library {
    pub id: String,
    pub name: String,
    pub paths: Vec<String>,
    pub format: String,
    pub source: String,
    pub default_sort_mode: String,
}

/// One tagged source folder of a library.
pub struct LibraryPath {
    pub path: String,
    /// "movie" | "show": what the scanner takes everything under it for.
    pub kind: String,
}

/// One entry of a library listing.
pub struct MediaEntry {
    pub id: i64,
    pub title: String,
    pub year: Option<String>,
    pub end_year: Option<String>,
    pub folder_path: String,
    pub parent_id: Option<i64>,
    pub entry_type: String,
    pub covers: Vec<String>,
    pub selected_cover: Option<String>,
    pub child_count: i64,
    pub season_display: Option<String>,
    pub collection_display: Option<String>,
    pub role_display: Option<String>,
    pub tmdb_id: Option<String>,
    /// Set on playlist items that are links to library entries.
    pub link_id: Option<i64>,
}

pub struct EntriesResponse {
    pub entries: Vec<MediaEntry>,
    pub sort_mode: String,
    pub format: String,
    pub selected_preset_id: Option<i64>,
    pub presets: Vec<SortPresetSummary>,
}

pub struct PersonInfo {
    pub id: i64,
    pub name: String,
    pub image_path: Option<String>,
}

pub struct PersonSummary {
    pub id: i64,
    pub name: String,
    pub image_path: Option<String>,
    pub work_count: i64,
    pub favorite: bool,
    pub dc: Option<DirectorCreatorCounts>,
    pub acting: Option<TitleCounts>,
    pub composing: Option<TitleCounts>,
}

/// Distinct titles a person is credited on.
pub struct TitleCounts {
    pub films: i64,
    pub shows: i64,
}

/// A director or creator's works, bucketed.
pub struct DirectorCreatorCounts {
    pub films: i64,
    /// Shows where their episode credits cover every episode in the library.
    pub shows: i64,
    /// Episodes directed on shows below full coverage.
    pub episodes: i64,
    /// Distinct shows those episodes span.
    pub episode_shows: i64,
    pub created: i64,
}

pub struct CastInfo {
    pub id: i64,
    pub name: String,
    pub image_path: Option<String>,
    pub role: Option<String>,
}

pub struct MovieDetail {
    pub id: i64,
    pub tmdb_id: Option<String>,
    pub imdb_id: Option<String>,
    pub rotten_tomatoes_id: Option<String>,
    pub release_date: Option<String>,
    pub plot: Option<String>,
    pub tagline: Option<String>,
    pub runtime: Option<i64>,
    pub maturity_rating: Option<String>,
    pub genres: Vec<String>,
    pub directors: Vec<PersonInfo>,
    pub cast: Vec<CastInfo>,
    pub composers: Vec<PersonInfo>,
    pub studios: Vec<String>,
    pub keywords: Vec<String>,
    pub backdrop: Option<String>,
}

pub struct MovieDetailUpdate {
    pub tmdb_id: Option<String>,
    pub imdb_id: Option<String>,
    pub rotten_tomatoes_id: Option<String>,
    pub title: Option<String>,
    pub release_date: Option<String>,
    pub plot: Option<String>,
    pub tagline: Option<String>,
    pub runtime: Option<i64>,
    pub maturity_rating: Option<String>,
    pub genres: Option<Vec<String>>,
    pub directors: Option<Vec<String>>,
    pub cast: Option<Vec<CastUpdateInfo>>,
    pub composers: Option<Vec<String>>,
    pub studios: Option<Vec<String>>,
    pub keywords: Option<Vec<String>>,
}

pub struct CastUpdateInfo {
    pub name: String,
    pub role: Option<String>,
    pub tmdb_id: Option<i64>,
    pub profile_path: Option<String>,
}

pub struct PersonUpdateInfo {
    pub name: String,
    pub tmdb_id: Option<i64>,
    pub profile_path: Option<String>,
}

pub struct TmdbFieldSelection {
    pub tmdb_id: Option<String>,
    pub imdb_id: Option<String>,
    pub plot: Option<String>,
    pub tagline: Option<String>,
    pub runtime: Option<i64>,
    pub release_date: Option<String>,
    pub maturity_rating: Option<String>,
    pub genres: Option<Vec<String>>,
    pub directors: Option<Vec<PersonUpdateInfo>>,
    pub cast: Option<Vec<CastUpdateInfo>>,
    pub composers: Option<Vec<PersonUpdateInfo>>,
    pub studios: Option<Vec<String>>,
    pub keywords: Option<Vec<String>>,
}

pub struct TmdbImageDownload {
    /// TMDB path, e.g. "/abc123.jpg".
    pub file_path: String,
    /// "w780", "original", ...
    pub size: String,
    /// "cover" or "backdrop".
    pub image_type: String,
}

pub struct SeasonInfo {
    pub id: i64,
    pub title: String,
    pub season_number: Option<i64>,
    pub sort_order: i64,
}

pub struct EpisodeInfo {
    pub id: i64,
    pub title: String,
    pub episode_number: Option<i64>,
    pub episode_number_end: Option<i64>,
    pub file_path: String,
    pub sort_order: i64,
    pub plot: Option<String>,
    pub runtime: Option<i64>,
    pub release_date: Option<String>,
}

pub struct ShowEpisodeFlat {
    pub episode_id: i64,
    pub season_id: i64,
    pub season_number: Option<i64>,
    pub episode_number: Option<i64>,
    pub title: String,
    pub file_path: String,
}

pub struct GenreSummary {
    pub name: String,
    pub count: i64,
}

pub struct LibraryCounts {
    pub movies: i64,
    pub shows: i64,
    pub genres: i64,
    pub people: i64,
    pub actors: i64,
    pub directors_creators: i64,
    pub composers: i64,
}

pub struct CharacterMatch {
    pub person: PersonSummary,
    pub matched_role: String,
    pub matched_title: String,
    pub extra_matches: i64,
}

pub struct PlaylistSummary {
    pub id: i64,
    pub title: String,
    pub selected_cover: Option<String>,
    pub covers: Vec<String>,
    pub movie_count: i64,
    pub show_count: i64,
    pub year: Option<String>,
    pub end_year: Option<String>,
}

pub struct PlaylistsResponse {
    pub playlists: Vec<PlaylistSummary>,
    pub presets: Vec<SortPresetSummary>,
    pub selected_preset_id: Option<i64>,
}

pub struct PlaylistContents {
    pub entries: Vec<MediaEntry>,
    pub sort_mode: String,
    pub playlist_name: String,
    pub selected_preset_id: Option<i64>,
    pub presets: Vec<SortPresetSummary>,
}

pub struct SortPresetSummary {
    pub id: i64,
    pub name: String,
}

/// An item of a playlist's saved order.
#[derive(Clone, Copy)]
pub enum PlaylistSortItem {
    Link { id: i64 },
    Collection { id: i64 },
}

pub struct RatingInfo {
    pub source: String,
    pub value: String,
}

pub struct ExtraInfo {
    pub id: i64,
    pub kind: String,
    pub title: String,
    pub file_path: String,
    pub plot: Option<String>,
    pub release_date: Option<String>,
    pub runtime: Option<i64>,
}

pub struct ShowDetail {
    pub id: i64,
    pub tmdb_id: Option<String>,
    pub imdb_id: Option<String>,
    pub rotten_tomatoes_id: Option<String>,
    pub plot: Option<String>,
    pub tagline: Option<String>,
    pub maturity_rating: Option<String>,
    pub genres: Vec<String>,
    pub creators: Vec<PersonInfo>,
    pub cast: Vec<CastInfo>,
    pub composers: Vec<PersonInfo>,
    pub studios: Vec<String>,
    pub keywords: Vec<String>,
    pub total_runtime: Option<i64>,
    pub backdrop: Option<String>,
}

pub struct SeasonDetailLocal {
    pub id: i64,
    pub title: String,
    pub season_number: Option<i64>,
    pub plot: Option<String>,
    pub cast: Vec<CastInfo>,
}

pub struct EpisodeDetailLocal {
    pub id: i64,
    pub title: String,
    pub episode_number: Option<i64>,
    pub episode_number_end: Option<i64>,
    pub release_date: Option<String>,
    pub plot: Option<String>,
    pub runtime: Option<i64>,
    pub cast: Vec<CastInfo>,
    pub directors: Vec<PersonInfo>,
    pub composers: Vec<PersonInfo>,
}

pub struct BulkMovieTarget {
    pub id: i64,
    pub title: String,
    pub year: Option<String>,
}

pub struct BulkShowTarget {
    pub id: i64,
    pub title: String,
    pub year: Option<String>,
    pub tmdb_id: Option<String>,
}

pub struct BulkSeasonTarget {
    pub id: i64,
    pub show_id: i64,
    pub season_number: i64,
    pub episode_count: i64,
}

pub struct BulkWebisodeTarget {
    pub show_id: i64,
    pub extra_count: i64,
}

pub struct TmdbBulkTargets {
    pub movies: Vec<BulkMovieTarget>,
    pub shows: Vec<BulkShowTarget>,
    pub seasons: Vec<BulkSeasonTarget>,
    pub webisodes: Vec<BulkWebisodeTarget>,
    pub all_movies: Vec<BulkMovieTarget>,
    pub all_shows: Vec<BulkMovieTarget>,
}

pub struct TmdbShowFieldSelection {
    pub tmdb_id: Option<String>,
    pub imdb_id: Option<String>,
    pub plot: Option<String>,
    pub tagline: Option<String>,
    pub maturity_rating: Option<String>,
    pub genres: Option<Vec<String>>,
    pub creators: Option<Vec<PersonUpdateInfo>>,
    pub cast: Option<Vec<CastUpdateInfo>>,
    pub composers: Option<Vec<PersonUpdateInfo>>,
    pub studios: Option<Vec<String>>,
    pub keywords: Option<Vec<String>>,
}

pub struct TmdbSeasonFieldSelection {
    pub plot: Option<String>,
    pub cast: Option<Vec<CastUpdateInfo>>,
    pub season_director: Option<Vec<PersonUpdateInfo>>,
}

pub struct TmdbEpisodeFieldSelection {
    pub title: Option<String>,
    pub plot: Option<String>,
    pub runtime: Option<i64>,
    pub release_date: Option<String>,
    pub cast: Option<Vec<CastUpdateInfo>>,
    pub director: Option<Vec<PersonUpdateInfo>>,
    pub composer: Option<Vec<PersonUpdateInfo>>,
}

// ---------------------------------------------------------------------------
// Saved orders
// ---------------------------------------------------------------------------

/// How the saved order names an item: (is a playlist link, id).
pub type ItemKey = (bool, i64);

/// Index of the last of `keys[..n]` equal to `k`, or -1.
pub open spec fn last_key_index(keys: Seq<ItemKey>, k: ItemKey, n: int) -> int
    decreases n,
{
    if n <= 0 || n > keys.len() {
        -1
    } else if keys[n - 1] == k {
        n - 1
    } else {
        last_key_index(keys, k, n - 1)
    }
}

/// Saved item `preset[n]` places an item: one with its key exists and the
/// key was not placed by an earlier saved item.
pub open spec fn preset_places(keys: Seq<ItemKey>, preset: Seq<ItemKey>, n: int) -> bool {
    keys.contains(preset[n]) && !preset.take(n).contains(preset[n])
}

/// The items the first `n` saved items place, as indices into `keys`: for
/// each key, the last item holding it.
pub open spec fn preset_part(keys: Seq<ItemKey>, preset: Seq<ItemKey>, n: int) -> Seq<int>
    decreases n,
{
    if n <= 0 || n > preset.len() {
        Seq::empty()
    } else if preset_places(keys, preset, n - 1) {
        preset_part(keys, preset, n - 1).push(last_key_index(keys, preset[n - 1], keys.len() as int))
    } else {
        preset_part(keys, preset, n - 1)
    }
}

/// The saved items among the first `n` that still name an item (the rest
/// are stale), as indices into `preset`.
pub open spec fn kept_part(keys: Seq<ItemKey>, preset: Seq<ItemKey>, n: int) -> Seq<int>
    decreases n,
{
    if n <= 0 || n > preset.len() {
        Seq::empty()
    } else if preset_places(keys, preset, n - 1) {
        kept_part(keys, preset, n - 1).push(n - 1)
    } else {
        kept_part(keys, preset, n - 1)
    }
}

/// The items among the first `n` that the saved order does not place, in
/// their current order (each key once, as its last item).
pub open spec fn rest_part(keys: Seq<ItemKey>, preset: Seq<ItemKey>, n: int) -> Seq<int>
    decreases n,
{
    if n <= 0 || n > keys.len() {
        Seq::empty()
    } else if !preset.contains(keys[n - 1]) && !keys.take(n - 1).contains(keys[n - 1]) {
        rest_part(keys, preset, n - 1).push(last_key_index(keys, keys[n - 1], keys.len() as int))
    } else {
        rest_part(keys, preset, n - 1)
    }
}

/// The new order, as indices into `keys`: the saved items first, in saved
/// order, then everything else in its current order.
pub open spec fn preset_order(keys: Seq<ItemKey>, preset: Seq<ItemKey>) -> Seq<int> {
    preset_part(keys, preset, preset.len() as int) + rest_part(keys, preset, keys.len() as int)
}

fn key_in(s: &[ItemKey], upto: usize, k: ItemKey) -> (b: bool)
    requires
        upto <= s@.len(),
    ensures
        b == s@.take(upto as int).contains(k),
{
    let mut i: usize = 0;
    while i < upto
        invariant
            i <= upto <= s@.len(),
            forall|j: int| 0 <= j < i ==> s@[j] != k,
        decreases upto - i,
    {
        if s[i].0 == k.0 && s[i].1 == k.1 {
            assert(s@.take(upto as int)[i as int] == k);
            return true;
        }
        i += 1;
    }
    proof {
        if s@.take(upto as int).contains(k) {
            let j = choose|j: int| 0 <= j < upto && s@.take(upto as int)[j] == k;
            assert(s@[j] == k);
        }
    }
    false
}

fn last_key(s: &[ItemKey], k: ItemKey) -> (r: usize)
    requires
        s@.contains(k),
    ensures
        r == last_key_index(s@, k, s@.len() as int),
        r < s@.len(),
{
    let mut i: usize = s.len();
    while i > 0
        invariant
            i <= s@.len(),
            last_key_index(s@, k, s@.len() as int) == last_key_index(s@, k, i as int),
            forall|j: int| i <= j < s@.len() ==> s@[j] != k,
        decreases i,
    {
        if s[i - 1].0 == k.0 && s[i - 1].1 == k.1 {
            return i - 1;
        }
        i -= 1;
    }
    proof {
        let j = choose|j: int| 0 <= j < s@.len() && s@[j] == k;
        assert(s@[j] != k);
    }
    0
}

/// The new order of items keyed `keys` under the saved order `preset`
/// (indices into `keys`), and which saved items still name an item
/// (indices into `preset`).
pub fn preset_plan(keys: &[ItemKey], preset: &[ItemKey]) -> (r: (Vec<usize>, Vec<usize>))
    ensures
        r.0@.map_values(|i: usize| i as int) == preset_order(keys@, preset@),
        r.1@.map_values(|i: usize| i as int) == kept_part(keys@, preset@, preset@.len() as int),
{
    let mut order: Vec<usize> = Vec::new();
    let mut kept: Vec<usize> = Vec::new();
    let mut n: usize = 0;
    while n < preset.len()
        invariant
            n <= preset@.len(),
            order@.map_values(|i: usize| i as int) == preset_part(keys@, preset@, n as int),
            kept@.map_values(|i: usize| i as int) == kept_part(keys@, preset@, n as int),
        decreases preset.len() - n,
    {
        let k = preset[n];
        let present = key_in(keys, keys.len(), k);
        let earlier = key_in(preset, n, k);
        proof {
            assert(keys@.take(keys@.len() as int) =~= keys@);
        }
        if present && !earlier {
            let at = last_key(keys, k);
            order.push(at);
            kept.push(n);
        }
        proof {
            assert(order@.map_values(|i: usize| i as int) =~= preset_part(keys@, preset@, n + 1));
            assert(kept@.map_values(|i: usize| i as int) =~= kept_part(keys@, preset@, n + 1));
        }
        n += 1;
    }
    let ghost first = order@.map_values(|i: usize| i as int);
    let ghost start_len = order@.len();
    let mut m: usize = 0;
    while m < keys.len()
        invariant
            m <= keys@.len(),
            n == preset@.len(),
            start_len == first.len(),
            first == preset_part(keys@, preset@, preset@.len() as int),
            order@.map_values(|i: usize| i as int) == first + rest_part(keys@, preset@, m as int),
        decreases keys.len() - m,
    {
        let k = keys[m];
        let saved = key_in(preset, preset.len(), k);
        let earlier = key_in(keys, m, k);
        proof {
            assert(preset@.take(preset@.len() as int) =~= preset@);
        }
        let ghost prev = order@;
        if !saved && !earlier {
            proof {
                assert(keys@.contains(k)) by {
                    assert(keys@[m as int] == k);
                }
            }
            let at = last_key(keys, k);
            order.push(at);
            proof {
                assert(rest_part(keys@, preset@, m + 1) == rest_part(keys@, preset@, m as int).push(at as int));
                assert(order@.map_values(|i: usize| i as int) =~= prev.map_values(|i: usize| i as int).push(at as int));
            }
        } else {
            proof {
                assert(rest_part(keys@, preset@, m + 1) == rest_part(keys@, preset@, m as int));
            }
        }
        proof {
            assert(order@.map_values(|i: usize| i as int) =~= first + rest_part(keys@, preset@, m + 1));
        }
        m += 1;
    }
    (order, kept)
}

fn copy_opt_string(o: &Option<String>) -> (r: Option<String>)
    ensures
        r == *o,
{
    match o {
        Some(s) => Some(s.clone()),
        None => None,
    }
}

fn copy_strings(v: &Vec<String>) -> (r: Vec<String>)
    ensures
        r@ == v@,
{
    let mut out: Vec<String> = Vec::new();
    let mut i: usize = 0;
    while i < v.len()
        invariant
            i <= v@.len(),
            out@ == v@.take(i as int),
        decreases v.len() - i,
    {
        out.push(v[i].clone());
        i += 1;
        assert(out@ =~= v@.take(i as int));
    }
    assert(v@.take(v@.len() as int) =~= v@);
    out
}

/// The same entry: every field equal (the cover lists as sequences).
pub open spec fn same_entry(a: MediaEntry, b: MediaEntry) -> bool {
    a == (MediaEntry { covers: a.covers, ..b }) && a.covers@ == b.covers@
}

/// The same playlist summary: every field equal (the cover lists as
/// sequences).
pub open spec fn same_playlist(a: PlaylistSummary, b: PlaylistSummary) -> bool {
    a == (PlaylistSummary { covers: a.covers, ..b }) && a.covers@ == b.covers@
}

impl MediaEntry {
    /// A copy with the same fields.
    pub fn copy(&self) -> (r: MediaEntry)
        ensures
            same_entry(r, *self),
    {
        MediaEntry {
            id: self.id,
            title: self.title.clone(),
            year: copy_opt_string(&self.year),
            end_year: copy_opt_string(&self.end_year),
            folder_path: self.folder_path.clone(),
            parent_id: self.parent_id,
            entry_type: self.entry_type.clone(),
            covers: copy_strings(&self.covers),
            selected_cover: copy_opt_string(&self.selected_cover),
            child_count: self.child_count,
            season_display: copy_opt_string(&self.season_display),
            collection_display: copy_opt_string(&self.collection_display),
            role_display: copy_opt_string(&self.role_display),
            tmdb_id: copy_opt_string(&self.tmdb_id),
            link_id: self.link_id,
        }
    }
}

impl PlaylistSummary {
    /// A copy with the same fields.
    pub fn copy(&self) -> (r: PlaylistSummary)
        ensures
            same_playlist(r, *self),
    {
        PlaylistSummary {
            id: self.id,
            title: self.title.clone(),
            selected_cover: copy_opt_string(&self.selected_cover),
            covers: copy_strings(&self.covers),
            movie_count: self.movie_count,
            show_count: self.show_count,
            year: copy_opt_string(&self.year),
            end_year: copy_opt_string(&self.end_year),
        }
    }
}

/// How a playlist item is keyed in its saved order: a link by its link id,
/// anything else as a collection by its own id.
pub open spec fn playlist_key(e: MediaEntry) -> ItemKey {
    match e.link_id {
        Some(l) => (true, l),
        None => (false, e.id),
    }
}

pub open spec fn sort_item_key(it: PlaylistSortItem) -> ItemKey {
    match it {
        PlaylistSortItem::Link { id } => (true, id),
        PlaylistSortItem::Collection { id } => (false, id),
    }
}

/// `v` lists the items of `items` at the indices `order`.
pub open spec fn picked<T>(v: Seq<T>, items: Seq<T>, order: Seq<int>) -> bool {
    &&& v.len() == order.len()
    &&& forall|j: int| 0 <= j < order.len() ==> 0 <= #[trigger] order[j] < items.len() && v[j] == items[order[j]]
}

/// `v` lists (copies of) the entries of `items` at the indices `order`.
pub open spec fn picked_entries(v: Seq<MediaEntry>, items: Seq<MediaEntry>, order: Seq<int>) -> bool {
    &&& v.len() == order.len()
    &&& forall|j: int| 0 <= j < order.len() ==> 0 <= #[trigger] order[j] < items.len() && same_entry(v[j], items[order[j]])
}

proof fn lemma_part_bounds(keys: Seq<ItemKey>, preset: Seq<ItemKey>)
    ensures
        forall|j: int| 0 <= j < preset_order(keys, preset).len() ==> 0 <= #[trigger] preset_order(keys, preset)[j] < keys.len(),
        forall|j: int| 0 <= j < kept_part(keys, preset, preset.len() as int).len() ==> 0 <= #[trigger] kept_part(keys, preset, preset.len() as int)[j] < preset.len(),
{
    lemma_preset_part_bounds(keys, preset, preset.len() as int);
    lemma_rest_part_bounds(keys, preset, keys.len() as int);
}

proof fn lemma_last_key_index(keys: Seq<ItemKey>, k: ItemKey, n: int)
    requires
        0 <= n <= keys.len(),
        keys.take(n).contains(k),
    ensures
        0 <= last_key_index(keys, k, n) < n,
    decreases n,
{
    if keys[n - 1] != k {
        let j = choose|j: int| 0 <= j < n && keys.take(n)[j] == k;
        assert(keys.take(n - 1)[j] == k);
        lemma_last_key_index(keys, k, n - 1);
    }
}

proof fn lemma_preset_part_bounds(keys: Seq<ItemKey>, preset: Seq<ItemKey>, n: int)
    requires
        0 <= n <= preset.len(),
    ensures
        forall|j: int| 0 <= j < preset_part(keys, preset, n).len() ==> 0 <= #[trigger] preset_part(keys, preset, n)[j] < keys.len(),
        forall|j: int| 0 <= j < kept_part(keys, preset, n).len() ==> 0 <= #[trigger] kept_part(keys, preset, n)[j] < n,
    decreases n,
{
    if n > 0 {
        lemma_preset_part_bounds(keys, preset, n - 1);
        if preset_places(keys, preset, n - 1) {
            assert(keys.take(keys.len() as int) =~= keys);
            lemma_last_key_index(keys, preset[n - 1], keys.len() as int);
            let pp = preset_part(keys, preset, n - 1);
            let kp = kept_part(keys, preset, n - 1);
            assert forall|j: int| 0 <= j < preset_part(keys, preset, n).len() implies 0 <= #[trigger] preset_part(keys, preset, n)[j] < keys.len() by {
                if j < pp.len() {
                    assert(preset_part(keys, preset, n)[j] == pp[j]);
                }
            }
            assert forall|j: int| 0 <= j < kept_part(keys, preset, n).len() implies 0 <= #[trigger] kept_part(keys, preset, n)[j] < n by {
                if j < kp.len() {
                    assert(kept_part(keys, preset, n)[j] == kp[j]);
                }
            }
        } else {
            assert(preset_part(keys, preset, n) == preset_part(keys, preset, n - 1));
            assert(kept_part(keys, preset, n) == kept_part(keys, preset, n - 1));
            assert forall|j: int| 0 <= j < kept_part(keys, preset, n).len() implies 0 <= #[trigger] kept_part(keys, preset, n)[j] < n by {
                assert(kept_part(keys, preset, n)[j] == kept_part(keys, preset, n - 1)[j]);
            }
            assert forall|j: int| 0 <= j < preset_part(keys, preset, n).len() implies 0 <= #[trigger] preset_part(keys, preset, n)[j] < keys.len() by {
                assert(preset_part(keys, preset, n)[j] == preset_part(keys, preset, n - 1)[j]);
            }
        }
    }
}

proof fn lemma_rest_part_bounds(keys: Seq<ItemKey>, preset: Seq<ItemKey>, n: int)
    requires
        0 <= n <= keys.len(),
    ensures
        forall|j: int| 0 <= j < rest_part(keys, preset, n).len() ==> 0 <= #[trigger] rest_part(keys, preset, n)[j] < keys.len(),
    decreases n,
{
    if n > 0 {
        lemma_rest_part_bounds(keys, preset, n - 1);
        if !preset.contains(keys[n - 1]) && !keys.take(n - 1).contains(keys[n - 1]) {
            assert(keys.take(keys.len() as int)[n - 1] == keys[n - 1]);
            lemma_last_key_index(keys, keys[n - 1], keys.len() as int);
            let rp = rest_part(keys, preset, n - 1);
            assert forall|j: int| 0 <= j < rest_part(keys, preset, n).len() implies 0 <= #[trigger] rest_part(keys, preset, n)[j] < keys.len() by {
                if j < rp.len() {
                    assert(rest_part(keys, preset, n)[j] == rp[j]);
                }
            }
        } else {
            assert forall|j: int| 0 <= j < rest_part(keys, preset, n).len() implies 0 <= #[trigger] rest_part(keys, preset, n)[j] < keys.len() by {
                assert(rest_part(keys, preset, n)[j] == rest_part(keys, preset, n - 1)[j]);
            }
        }
    }
}

fn pick_entries(items: &Vec<MediaEntry>, order: &Vec<usize>) -> (r: Vec<MediaEntry>)
    requires
        forall|j: int| 0 <= j < order@.len() ==> #[trigger] order@[j] < items@.len(),
    ensures
        r@.len() == order@.len(),
        forall|j: int| 0 <= j < order@.len() ==> same_entry(#[trigger] r@[j], items@[order@[j] as int]),
{
    let mut out: Vec<MediaEntry> = Vec::new();
    let mut j: usize = 0;
    while j < order.len()
        invariant
            j <= order@.len(),
            out@.len() == j,
            forall|q: int| 0 <= q < order@.len() ==> #[trigger] order@[q] < items@.len(),
            forall|q: int| 0 <= q < j ==> same_entry(#[trigger] out@[q], items@[order@[q] as int]),
        decreases order.len() - j,
    {
        out.push(items[order[j]].copy());
        j += 1;
    }
    out
}

/// Library-scope saved order: the entries named by `preset_ids` (entry ids)
/// come first in saved order, the rest follow in their current order; one
/// entry per id. Also returns the saved ids that still name an entry (when
/// fewer than were saved, the saved order is to be pruned to them).
pub fn apply_library_preset_ordering(preset_ids: &[i64], entries: Vec<MediaEntry>) -> (r: (Vec<MediaEntry>, Vec<i64>))
    ensures
        ({
            let keys = entries@.map_values(|e: MediaEntry| (false, e.id));
            let preset = preset_ids@.map_values(|id: i64| (false, id));
            let kept = kept_part(keys, preset, preset.len() as int);
            &&& picked_entries(r.0@, entries@, preset_order(keys, preset))
            &&& picked(r.1@, preset_ids@, kept)
        }),
{
    let mut keys: Vec<ItemKey> = Vec::new();
    let mut i: usize = 0;
    while i < entries.len()
        invariant
            i <= entries@.len(),
            keys@ == entries@.take(i as int).map_values(|e: MediaEntry| (false, e.id)),
        decreases entries.len() - i,
    {
        keys.push((false, entries[i].id));
        i += 1;
        assert(keys@ =~= entries@.take(i as int).map_values(|e: MediaEntry| (false, e.id)));
    }
    let mut preset: Vec<ItemKey> = Vec::new();
    let mut k: usize = 0;
    while k < preset_ids.len()
        invariant
            k <= preset_ids@.len(),
            preset@ == preset_ids@.take(k as int).map_values(|id: i64| (false, id)),
        decreases preset_ids.len() - k,
    {
        preset.push((false, preset_ids[k]));
        k += 1;
        assert(preset@ =~= preset_ids@.take(k as int).map_values(|id: i64| (false, id)));
    }
    proof {
        assert(entries@.take(entries@.len() as int) =~= entries@);
        assert(preset_ids@.take(preset_ids@.len() as int) =~= preset_ids@);
        lemma_part_bounds(keys@, preset@);
    }
    let (order, kept) = preset_plan(&keys, &preset);
    proof {
        assert forall|j: int| 0 <= j < order@.len() implies #[trigger] order@[j] < entries@.len() by {
            assert(order@.map_values(|x: usize| x as int)[j] == order@[j] as int);
        }
    }
    let out = pick_entries(&entries, &order);
    let mut ids: Vec<i64> = Vec::new();
    let mut q: usize = 0;
    while q < kept.len()
        invariant
            q <= kept@.len(),
            ids@.len() == q,
            kept@.map_values(|x: usize| x as int) == kept_part(keys@, preset@, preset@.len() as int),
            forall|j: int| 0 <= j < kept_part(keys@, preset@, preset@.len() as int).len() ==> 0 <= #[trigger] kept_part(keys@, preset@, preset@.len() as int)[j] < preset@.len(),
            preset@.len() == preset_ids@.len(),
            forall|j: int| 0 <= j < q ==> #[trigger] ids@[j] == preset_ids@[kept@[j] as int],
        decreases kept.len() - q,
    {
        assert(kept@.map_values(|x: usize| x as int)[q as int] == kept@[q as int] as int);
        ids.push(preset_ids[kept[q]]);
        q += 1;
    }
    proof {
        let ord = preset_order(keys@, preset@);
        assert forall|j: int| 0 <= j < ord.len() implies 0 <= #[trigger] ord[j] < entries@.len() && same_entry(out@[j], entries@[ord[j]]) by {
            assert(order@.map_values(|x: usize| x as int)[j] == order@[j] as int);
        }
        let kp = kept_part(keys@, preset@, preset@.len() as int);
        assert forall|j: int| 0 <= j < kp.len() implies 0 <= #[trigger] kp[j] < preset_ids@.len() && ids@[j] == preset_ids@[kp[j]] by {
            assert(kept@.map_values(|x: usize| x as int)[j] == kept@[j] as int);
        }
    }
    (out, ids)
}

/// `v` lists (copies of) the playlists of `items` at the indices `order`.
pub open spec fn picked_playlists(v: Seq<PlaylistSummary>, items: Seq<PlaylistSummary>, order: Seq<int>) -> bool {
    &&& v.len() == order.len()
    &&& forall|j: int| 0 <= j < order.len() ==> 0 <= #[trigger] order[j] < items.len() && same_playlist(v[j], items[order[j]])
}

/// Playlists-list saved order: the playlists named by `preset_ids` come
/// first in saved order, the rest follow in their current order; one
/// playlist per id. Also returns the saved ids that still name a playlist.
pub fn apply_playlists_list_preset_ordering(preset_ids: &[i64], playlists: Vec<PlaylistSummary>) -> (r: (Vec<PlaylistSummary>, Vec<i64>))
    ensures
        ({
            let keys = playlists@.map_values(|p: PlaylistSummary| (false, p.id));
            let preset = preset_ids@.map_values(|id: i64| (false, id));
            let kept = kept_part(keys, preset, preset.len() as int);
            &&& picked_playlists(r.0@, playlists@, preset_order(keys, preset))
            &&& picked(r.1@, preset_ids@, kept)
        }),
{
    let mut keys: Vec<ItemKey> = Vec::new();
    let mut i: usize = 0;
    while i < playlists.len()
        invariant
            i <= playlists@.len(),
            keys@ == playlists@.take(i as int).map_values(|p: PlaylistSummary| (false, p.id)),
        decreases playlists.len() - i,
    {
        keys.push((false, playlists[i].id));
        i += 1;
        assert(keys@ =~= playlists@.take(i as int).map_values(|p: PlaylistSummary| (false, p.id)));
    }
    let mut preset: Vec<ItemKey> = Vec::new();
    let mut k: usize = 0;
    while k < preset_ids.len()
        invariant
            k <= preset_ids@.len(),
            preset@ == preset_ids@.take(k as int).map_values(|id: i64| (false, id)),
        decreases preset_ids.len() - k,
    {
        preset.push((false, preset_ids[k]));
        k += 1;
        assert(preset@ =~= preset_ids@.take(k as int).map_values(|id: i64| (false, id)));
    }
    proof {
        assert(playlists@.take(playlists@.len() as int) =~= playlists@);
        assert(preset_ids@.take(preset_ids@.len() as int) =~= preset_ids@);
        lemma_part_bounds(keys@, preset@);
    }
    let (order, kept) = preset_plan(&keys, &preset);
    let mut out: Vec<PlaylistSummary> = Vec::new();
    let mut j: usize = 0;
    while j < order.len()
        invariant
            j <= order@.len(),
            out@.len() == j,
            order@.map_values(|x: usize| x as int) == preset_order(keys@, preset@),
            forall|q: int| 0 <= q < preset_order(keys@, preset@).len() ==> 0 <= #[trigger] preset_order(keys@, preset@)[q] < keys@.len(),
            keys@.len() == playlists@.len(),
            forall|q: int| 0 <= q < j ==> same_playlist(#[trigger] out@[q], playlists@[order@[q] as int]),
        decreases order.len() - j,
    {
        assert(order@.map_values(|x: usize| x as int)[j as int] == order@[j as int] as int);
        out.push(playlists[order[j]].copy());
        j += 1;
    }
    let mut ids: Vec<i64> = Vec::new();
    let mut q: usize = 0;
    while q < kept.len()
        invariant
            q <= kept@.len(),
            ids@.len() == q,
            kept@.map_values(|x: usize| x as int) == kept_part(keys@, preset@, preset@.len() as int),
            forall|j: int| 0 <= j < kept_part(keys@, preset@, preset@.len() as int).len() ==> 0 <= #[trigger] kept_part(keys@, preset@, preset@.len() as int)[j] < preset@.len(),
            preset@.len() == preset_ids@.len(),
            forall|j: int| 0 <= j < q ==> #[trigger] ids@[j] == preset_ids@[kept@[j] as int],
        decreases kept.len() - q,
    {
        assert(kept@.map_values(|x: usize| x as int)[q as int] == kept@[q as int] as int);
        ids.push(preset_ids[kept[q]]);
        q += 1;
    }
    proof {
        let ord = preset_order(keys@, preset@);
        assert forall|j: int| 0 <= j < ord.len() implies 0 <= #[trigger] ord[j] < playlists@.len() && same_playlist(out@[j], playlists@[ord[j]]) by {
            assert(order@.map_values(|x: usize| x as int)[j] == order@[j] as int);
        }
        let kp = kept_part(keys@, preset@, preset@.len() as int);
        assert forall|j: int| 0 <= j < kp.len() implies 0 <= #[trigger] kp[j] < preset_ids@.len() && ids@[j] == preset_ids@[kp[j]] by {
            assert(kept@.map_values(|x: usize| x as int)[j] == kept@[j] as int);
        }
    }
    (out, ids)
}

/// Playlist-scope saved order: items are keyed as links (by link id) or
/// collections (by id); the items named by `preset` come first in saved
/// order, the rest follow in their current order, one per key. Also
/// returns the saved items that still name an item.
pub fn apply_playlist_preset_ordering(preset: &[PlaylistSortItem], items: Vec<MediaEntry>) -> (r: (Vec<MediaEntry>, Vec<PlaylistSortItem>))
    ensures
        ({
            let keys = items@.map_values(|e: MediaEntry| playlist_key(e));
            let pkeys = preset@.map_values(|it: PlaylistSortItem| sort_item_key(it));
            let kept = kept_part(keys, pkeys, pkeys.len() as int);
            &&& picked_entries(r.0@, items@, preset_order(keys, pkeys))
            &&& picked(r.1@, preset@, kept)
        }),
{
    let mut keys: Vec<ItemKey> = Vec::new();
    let mut i: usize = 0;
    while i < items.len()
        invariant
            i <= items@.len(),
            keys@ == items@.take(i as int).map_values(|e: MediaEntry| playlist_key(e)),
        decreases items.len() - i,
    {
        let key = match items[i].link_id {
            Some(l) => (true, l),
            None => (false, items[i].id),
        };
        keys.push(key);
        i += 1;
        assert(keys@ =~= items@.take(i as int).map_values(|e: MediaEntry| playlist_key(e)));
    }
    let mut pkeys: Vec<ItemKey> = Vec::new();
    let mut k: usize = 0;
    while k < preset.len()
        invariant
            k <= preset@.len(),
            pkeys@ == preset@.take(k as int).map_values(|it: PlaylistSortItem| sort_item_key(it)),
        decreases preset.len() - k,
    {
        let key = match preset[k] {
            PlaylistSortItem::Link { id } => (true, id),
            PlaylistSortItem::Collection { id } => (false, id),
        };
        pkeys.push(key);
        k += 1;
        assert(pkeys@ =~= preset@.take(k as int).map_values(|it: PlaylistSortItem| sort_item_key(it)));
    }
    proof {
        assert(items@.take(items@.len() as int) =~= items@);
        assert(preset@.take(preset@.len() as int) =~= preset@);
        lemma_part_bounds(keys@, pkeys@);
    }
    let (order, kept) = preset_plan(&keys, &pkeys);
    proof {
        assert forall|j: int| 0 <= j < order@.len() implies #[trigger] order@[j] < items@.len() by {
            assert(order@.map_values(|x: usize| x as int)[j] == order@[j] as int);
        }
    }
    let out = pick_entries(&items, &order);
    let mut its: Vec<PlaylistSortItem> = Vec::new();
    let mut q: usize = 0;
    while q < kept.len()
        invariant
            q <= kept@.len(),
            its@.len() == q,
            kept@.map_values(|x: usize| x as int) == kept_part(keys@, pkeys@, pkeys@.len() as int),
            forall|j: int| 0 <= j < kept_part(keys@, pkeys@, pkeys@.len() as int).len() ==> 0 <= #[trigger] kept_part(keys@, pkeys@, pkeys@.len() as int)[j] < pkeys@.len(),
            pkeys@.len() == preset@.len(),
            forall|j: int| 0 <= j < q ==> #[trigger] its@[j] == preset@[kept@[j] as int],
        decreases kept.len() - q,
    {
        assert(kept@.map_values(|x: usize| x as int)[q as int] == kept@[q as int] as int);
        its.push(preset[kept[q]]);
        q += 1;
    }
    proof {
        let ord = preset_order(keys@, pkeys@);
        assert forall|j: int| 0 <= j < ord.len() implies 0 <= #[trigger] ord[j] < items@.len() && same_entry(out@[j], items@[ord[j]]) by {
            assert(order@.map_values(|x: usize| x as int)[j] == order@[j] as int);
        }
        let kp = kept_part(keys@, pkeys@, pkeys@.len() as int);
        assert forall|j: int| 0 <= j < kp.len() implies 0 <= #[trigger] kp[j] < preset@.len() && its@[j] == preset@[kp[j]] by {
            assert(kept@.map_values(|x: usize| x as int)[j] == kept@[j] as int);
        }
    }
    (out, its)
}

// ---------------------------------------------------------------------------
// Update manifest lookup
// ---------------------------------------------------------------------------

/// Index of the first asset from `i` on whose `name` is `latest.json`.
pub open spec fn latest_asset_from(assets: Seq<Json>, i: int) -> Option<int>
    decreases assets.len() - i,
{
    if i < 0 || i >= assets.len() {
        None
    } else if member_spec(assets[i], "name"@) == Some(Json::Str("latest.json"@)) {
        Some(i)
    } else {
        latest_asset_from(assets, i + 1)
    }
}

/// Where a release's `latest.json` update manifest downloads from: the
/// `browser_download_url` of its first asset named `latest.json`.
pub open spec fn latest_json_url(release: Json) -> Result<Seq<char>, Seq<char>> {
    match member_spec(release, "assets"@) {
        Some(Json::Array(assets)) => match latest_asset_from(assets, 0) {
            Some(i) => match member_spec(assets[i], "browser_download_url"@) {
                Some(Json::Str(u)) => Ok(u),
                _ => Err("latest.json not found in release assets"@),
            },
            None => Err("latest.json not found in release assets"@),
        },
        _ => Err("No assets in release"@),
    }
}

/// The download URL of a release's `latest.json` asset (see
/// `latest_json_url`).
pub fn extract_latest_json_url(release: &JsonValue) -> (r: Result<String, String>)
    ensures
        match latest_json_url(release@) {
            Ok(u) => r matches Ok(x) && x@ == u,
            Err(e) => r matches Err(x) && x@ == e,
        },
{
    let assets = match release.get("assets") {
        Some(a) => match a.as_array() {
            Some(v) => v,
            None => {
                return Err(String::from_str("No assets in release"));
            },
        },
        None => {
            return Err(String::from_str("No assets in release"));
        },
    };
    let ghost views = json_views(assets@);
    proof {
        lemma_json_views(assets@);
    }
    let mut i: usize = 0;
    while i < assets.len()
        invariant
            i <= assets@.len(),
            views == json_views(assets@),
            views.len() == assets@.len(),
            forall|k: int| 0 <= k < assets@.len() ==> #[trigger] views[k] == assets@[k]@,
            latest_asset_from(views, 0) == latest_asset_from(views, i as int),
            member_spec(release@, "assets"@) == Some(Json::Array(views)),
        decreases assets.len() - i,
    {
        let named = match assets[i].get("name") {
            Some(n) => match n.as_str() {
                Some(t) => str_eq(t, "latest.json"),
                None => false,
            },
            None => false,
        };
        if named {
            return match assets[i].get("browser_download_url") {
                Some(u) => match u.as_str() {
                    Some(t) => Ok(t.to_string()),
                    None => Err(String::from_str("latest.json not found in release assets")),
                },
                None => Err(String::from_str("latest.json not found in release assets")),
            };
        }
        i += 1;
    }
    Err(String::from_str("latest.json not found in release assets"))
}

// ---------------------------------------------------------------------------
// Where app-held images live
// ---------------------------------------------------------------------------

/// Custom covers of a playlist or nested collection (which live in no media
/// folder): `playlist_covers/{kind}-{id}` under the app-data directory, as
/// path components.
pub fn playlist_covers_dir(kind: &str, id: i64) -> (r: Vec<String>)
    ensures
        r@.len() == 2,
        r@[0]@ == "playlist_covers"@,
        r@[1]@ == kind@ + "-"@ + decimal_int(id as int),
{
    let mut leaf = String::new();
    push_str(&mut leaf, kind);
    push_str(&mut leaf, "-");
    push_decimal_i64(&mut leaf, id);
    let mut r: Vec<String> = Vec::new();
    r.push(String::from_str("playlist_covers"));
    r.push(leaf);
    r
}

/// App-added artwork of a library (never written into the media folders):
/// `added_images/{library_id}` under the app-data directory, as path
/// components.
pub fn app_images_base(library_id: &str) -> (r: Vec<String>)
    ensures
        r@.len() == 2,
        r@[0]@ == "added_images"@,
        r@[1]@ == library_id@,
{
    let mut r: Vec<String> = Vec::new();
    r.push(String::from_str("added_images"));
    r.push(library_id.to_string());
    r
}

/// Lowercase hexadecimal digits of `n` (no leading zeros; "0" for zero).
pub open spec fn hex_lower(n: nat) -> Seq<char>
    decreases n,
{
    if n < 16 {
        seq![hex_digit(n)]
    } else {
        hex_lower(n / 16).push(hex_digit(n % 16))
    }
}

pub open spec fn hex_digit(d: nat) -> char {
    if d < 10 {
        ((d as int) + ('0' as int)) as char
    } else {
        ((d as int) - 10 + ('a' as int)) as char
    }
}

fn hex_digit_char(d: u128) -> (c: char)
    requires
        d < 16,
    ensures
        c == hex_digit(d as nat),
{
    let b: u8 = if d < 10 {
        (d as u8) + 48
    } else {
        (d as u8) - 10 + 97
    };
    crate::text::char_from_ascii(b)
}

fn push_hex(out: &mut String, n: u128)
    ensures
        final(out)@ == old(out)@ + hex_lower(n as nat),
    decreases n,
{
    if n < 16 {
        push_char(out, hex_digit_char(n));
        assert(hex_lower(n as nat) =~= seq![hex_digit(n as nat)]);
    } else {
        push_hex(out, n / 16);
        push_char(out, hex_digit_char(n % 16));
    }
}

/// An id made of a timestamp (`format!("{:x}", nanos)`).
pub fn uuid_simple(nanos: u128) -> (r: String)
    ensures
        r@ == hex_lower(nanos as nat),
{
    let mut out = String::new();
    push_hex(&mut out, nanos);
    out
}

/// The backdrop a detail page shows, when something is cached: the user's
/// selection while it is still among the cached ones, else the first one.
pub open spec fn backdrop_choice(cached: Seq<String>, selected: Option<String>) -> Seq<char> {
    match selected {
        Some(s) => if crate::scan::has_path(cached, s@) {
            s@
        } else {
            cached[0]@
        },
        None => cached[0]@,
    }
}

/// The backdrop to show (see `backdrop_choice`); none when nothing is
/// cached.
pub fn pick_backdrop(cached: &[String], selected: Option<String>) -> (r: Option<String>)
    ensures
        r is None <==> cached@.len() == 0,
        r matches Some(b) ==> b@ == backdrop_choice(cached@, selected),
{
    if cached.len() == 0 {
        return None;
    }
    match &selected {
        Some(s) => {
            let mut i: usize = 0;
            while i < cached.len()
                invariant
                    i <= cached@.len(),
                    selected == Some(*s),
                    forall|k: int| 0 <= k < i ==> (#[trigger] cached@[k])@ != s@,
                decreases cached.len() - i,
            {
                if str_eq(cached[i].as_str(), s.as_str()) {
                    assert(crate::scan::has_path(cached@, s@)) by {
                        assert((cached@[i as int])@ == s@);
                    }
                    return Some(s.clone());
                }
                i += 1;
            }
            Some(cached[0].clone())
        },
        None => Some(cached[0].clone()),
    }
}

/// "1 movie" / "<n> movies".
pub open spec fn count_label(n: i64, one: Seq<char>, many: Seq<char>) -> Seq<char> {
    if n == 1 {
        "1 "@ + one
    } else {
        decimal_int(n as int) + " "@ + many
    }
}

/// The subtitle of a collection: how many movies and shows it holds,
/// joined by " and ", leaving out a kind it has none of; "empty" when it
/// has neither.
pub open spec fn collection_display_spec(movies: i64, shows: i64) -> Seq<char> {
    if movies > 0 && shows > 0 {
        count_label(movies, "movie"@, "movies"@) + " and "@ + count_label(shows, "show"@, "shows"@)
    } else if movies > 0 {
        count_label(movies, "movie"@, "movies"@)
    } else if shows > 0 {
        count_label(shows, "show"@, "shows"@)
    } else {
        "empty"@
    }
}

fn push_count(out: &mut String, n: i64, one: &str, many: &str)
    ensures
        final(out)@ == old(out)@ + count_label(n, one@, many@),
{
    if n == 1 {
        push_str(out, "1 ");
        push_str(out, one);
        proof {
            reveal_strlit("1 ");
        }
    } else {
        push_decimal_i64(out, n);
        push_str(out, " ");
        push_str(out, many);
    }
}

pub fn collection_display(movies: i64, shows: i64) -> (r: String)
    ensures
        r@ == collection_display_spec(movies, shows),
{
    let mut s = String::new();
    if movies > 0 {
        push_count(&mut s, movies, "movie", "movies");
    }
    if shows > 0 {
        if movies > 0 {
            push_str(&mut s, " and ");
        }
        push_count(&mut s, shows, "show", "shows");
    }
    if movies <= 0 && shows <= 0 {
        push_str(&mut s, "empty");
    }
    s
}

/// The end year shown beside a start year: only when it differs.
pub fn year_span_end(min_year: &Option<String>, max_year: &Option<String>) -> (r: Option<String>)
    ensures
        r == match (*min_year, *max_year) {
            (Some(a), Some(b)) => if a@ != b@ {
                Some(b)
            } else {
                None
            },
            _ => None,
        },
{
    match (min_year, max_year) {
        (Some(a), Some(b)) => if !str_eq(a.as_str(), b.as_str()) {
            Some(b.clone())
        } else {
            None
        },
        _ => None,
    }
}

/// Whether a library entry may move from parent `old_parent` to
/// `new_parent`, given `ancestors`, the chain of parents above the new
/// parent (nearest first): `Ok(false)` when it already is there (nothing to
/// do), refused when the new parent is the entry itself or lies beneath it,
/// `Ok(true)` otherwise.
pub fn check_entry_move(entry_id: i64, old_parent: Option<i64>, new_parent: Option<i64>, ancestors: &[i64]) -> (r: Result<
    bool,
    String,
>)
    ensures
        old_parent == new_parent ==> r == Ok::<bool, String>(false),
        old_parent != new_parent && new_parent == Some(entry_id) ==> (r matches Err(e) && e@
            == "Cannot move entry into itself"@),
        old_parent != new_parent && new_parent is Some && new_parent != Some(entry_id) && ancestors@.contains(entry_id)
            ==> (r matches Err(e) && e@ == "Cannot move entry into its own descendant"@),
        old_parent != new_parent && (new_parent is None || (new_parent != Some(entry_id) && !ancestors@.contains(
            entry_id,
        ))) ==> r == Ok::<bool, String>(true),
{
    if old_parent == new_parent {
        return Ok(false);
    }
    if let Some(target) = new_parent {
        if target == entry_id {
            return Err(String::from_str("Cannot move entry into itself"));
        }
        let mut i: usize = 0;
        while i < ancestors.len()
            invariant
                i <= ancestors@.len(),
                old_parent != new_parent,
                new_parent == Some(target),
                target != entry_id,
                forall|k: int| 0 <= k < i ==> ancestors@[k] != entry_id,
            decreases ancestors.len() - i,
        {
            if ancestors[i] == entry_id {
                return Err(String::from_str("Cannot move entry into its own descendant"));
            }
            i += 1;
        }
    }
    Ok(true)
}

/// A playlist collection sits under exactly one of a playlist or a
/// collection, and never under itself.
pub fn check_collection_move(collection_id: i64, parent_playlist_id: Option<i64>, parent_collection_id: Option<i64>) -> (r:
    Result<(), String>)
    ensures
        parent_playlist_id is Some == parent_collection_id is Some ==> (r matches Err(e) && e@
            == "Exactly one of parent_playlist_id or parent_collection_id must be set"@),
        parent_playlist_id is Some != parent_collection_id is Some && parent_collection_id == Some(collection_id) ==> (r matches Err(e)
            && e@ == "Cannot move a collection into itself"@),
        parent_playlist_id is Some != parent_collection_id is Some && parent_collection_id != Some(collection_id) ==> r
            == Ok::<(), String>(()),
{
    if parent_playlist_id.is_some() == parent_collection_id.is_some() {
        return Err(String::from_str("Exactly one of parent_playlist_id or parent_collection_id must be set"));
    }
    if parent_collection_id == Some(collection_id) {
        return Err(String::from_str("Cannot move a collection into itself"));
    }
    Ok(())
}

/// The folder kinds a library format takes.
pub open spec fn kind_fits(format: Seq<char>, kind: Seq<char>) -> bool {
    if format == "video"@ {
        kind == "movie"@ || kind == "show"@
    } else {
        format == "music"@ && kind == "music"@
    }
}

/// The first problem with a new library's folders `paths` (`(path, kind)`,
/// with whether each path exists), checked in order: each folder's kind must
/// suit the format, then its path must exist.
pub open spec fn folders_problem(format: Seq<char>, paths: Seq<(String, String)>, exists: Seq<bool>, n: int) -> Option<Seq<char>>
    decreases n,
{
    if n <= 0 {
        None
    } else {
        match folders_problem(format, paths, exists, n - 1) {
            Some(e) => Some(e),
            None => {
                let (p, k) = paths[n - 1];
                if !kind_fits(format, k@) {
                    Some("Invalid folder kind '"@ + k@ + "' for a "@ + format + " library"@)
                } else if !exists[n - 1] {
                    Some("Path does not exist: "@ + p@)
                } else {
                    None
                }
            },
        }
    }
}

proof fn lemma_problem_sticks(format: Seq<char>, paths: Seq<(String, String)>, exists: Seq<bool>, a: int, b: int)
    requires
        1 <= a <= b,
        folders_problem(format, paths, exists, a) is Some,
    ensures
        folders_problem(format, paths, exists, b) == folders_problem(format, paths, exists, a),
    decreases b - a,
{
    if a < b {
        lemma_problem_sticks(format, paths, exists, a, b - 1);
    }
}

/// Whether a library can be created: a video or music library, from local
/// folders, with at least one folder, each of a kind the format takes and
/// present on disk (`exists`, one per folder).
pub fn check_new_library(format: &str, source: &str, paths: &[(String, String)], exists: &[bool]) -> (r: Result<(), String>)
    requires
        exists@.len() == paths@.len(),
    ensures
        !(format@ == "video"@ || format@ == "music"@) ==> (r matches Err(e) && e@ == "Unsupported library format: "@
            + format@),
        (format@ == "video"@ || format@ == "music"@) && source@ != "local"@ ==> (r matches Err(e) && e@
            == "Unsupported library source: "@ + source@),
        (format@ == "video"@ || format@ == "music"@) && source@ == "local"@ && paths@.len() == 0 ==> (r matches Err(e)
            && e@ == "At least one folder is required"@),
        (format@ == "video"@ || format@ == "music"@) && source@ == "local"@ && paths@.len() > 0 ==> match folders_problem(
            format@,
            paths@,
            exists@,
            paths@.len() as int,
        ) {
            Some(p) => r matches Err(e) && e@ == p,
            None => r is Ok,
        },
{
    let video = str_eq(format, "video");
    let music = str_eq(format, "music");
    if !video && !music {
        let mut e = String::from_str("Unsupported library format: ");
        push_str(&mut e, format);
        return Err(e);
    }
    if !str_eq(source, "local") {
        let mut e = String::from_str("Unsupported library source: ");
        push_str(&mut e, source);
        return Err(e);
    }
    if paths.len() == 0 {
        return Err(String::from_str("At least one folder is required"));
    }
    let mut i: usize = 0;
    while i < paths.len()
        invariant
            i <= paths@.len(),
            exists@.len() == paths@.len(),
            video == (format@ == "video"@),
            music == (format@ == "music"@),
            video || music,
            source@ == "local"@,
            paths@.len() > 0,
            folders_problem(format@, paths@, exists@, i as int) is None,
        decreases paths.len() - i,
    {
        let k = paths[i].1.as_str();
        let fits = if video {
            str_eq(k, "movie") || str_eq(k, "show")
        } else {
            music && str_eq(k, "music")
        };
        if !fits {
            let mut e = String::from_str("Invalid folder kind '");
            push_str(&mut e, k);
            push_str(&mut e, "' for a ");
            push_str(&mut e, format);
            push_str(&mut e, " library");
            proof {
                lemma_problem_sticks(format@, paths@, exists@, i as int + 1, paths@.len() as int);
            }
            return Err(e);
        }
        if !exists[i] {
            let mut e = String::from_str("Path does not exist: ");
            push_str(&mut e, paths[i].0.as_str());
            proof {
                lemma_problem_sticks(format@, paths@, exists@, i as int + 1, paths@.len() as int);
            }
            return Err(e);
        }
        i += 1;
    }
    Ok(())
}

/// Whether an entry may be linked into a playlist: only movies and shows,
/// and only from the playlist's own library.
pub fn check_media_link(target_type: &str, target_library: &str, parent_library: &str) -> (r: Result<(), String>)
    ensures
        !(target_type@ == "movie"@ || target_type@ == "show"@) ==> (r matches Err(e) && e@ == "Cannot add "@
            + target_type@ + " to a playlist \u{2014} only movies and shows can be linked"@),
        (target_type@ == "movie"@ || target_type@ == "show"@) && target_library@ != parent_library@ ==> (r matches Err(e)
            && e@ == "Cross-library linking is not supported in this version"@),
        (target_type@ == "movie"@ || target_type@ == "show"@) && target_library@ == parent_library@ ==> r is Ok,
{
    if !str_eq(target_type, "movie") && !str_eq(target_type, "show") {
        let mut e = String::from_str("Cannot add ");
        push_str(&mut e, target_type);
        push_str(&mut e, " to a playlist \u{2014} only movies and shows can be linked");
        return Err(e);
    }
    if !str_eq(target_library, parent_library) {
        return Err(String::from_str("Cross-library linking is not supported in this version"));
    }
    Ok(())
}

} // verus!
