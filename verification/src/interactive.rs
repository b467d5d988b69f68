//! Interactive (branching) titles in the `interactiveVideoMoments` format.
//!
//! An interactive title is one video file (every branch concatenated) plus
//! two JSON files: a manifest that times every segment
//! (`startTimeMs`/`endTimeMs`/`defaultNext`/`next`) and an info file with the
//! interactivity layer (choices by segment, precondition expressions,
//! `segmentGroups` routing, initial state). File names are not the contract:
//! the files are told apart by content, and the info payload may sit at the
//! top level or inside a Falcor cache
//! (`jsonGraph.videos.<id>.interactiveVideoMoments.value`).
//!
//! The maps of the files are held as lists of `(key, value)` pairs in the
//! order read, no key twice; see `keyed`.

use vstd::prelude::*;
use crate::json::{entry_views, lemma_entry_views, member_spec, Json, JsonValue};
use crate::state::StateMap;
use crate::session::{lemma_str_lt_order, str_less, str_lt};
use crate::text::{ascii_lower_seq, ascii_lowercase, chars_eq, chars_of, copy_range, last_dot};
use crate::naming::rfind;

verus! {

/// Segment skeleton of a title (the manifest file).
pub struct Manifest {
    pub kind: Option<String>,
    pub segments: Vec<(String, ManifestSegment)>,
    pub initial_segment: String,
    pub viewable_id: Option<i64>,
}

/// One segment of the video.
pub struct ManifestSegment {
    pub start_time_ms: i64,
    /// Absent on terminal segments (the credits ident): play to the end.
    pub end_time_ms: Option<i64>,
    pub default_next: Option<String>,
    /// Possible successors (their selection weights are not kept).
    pub next: Option<Vec<String>>,
    pub ui: Option<SegmentUi>,
    /// Marks an ending.
    pub story_end: Option<bool>,
    pub credits: Option<bool>,
}

pub struct SegmentUi {
    /// Absolute-ms windows during which choice interaction is live.
    pub interaction_zones: Option<Vec<Vec<i64>>>,
}

/// The interactivity layer (the `interactiveVideoMoments` value).
pub struct MomentsValue {
    pub moments_by_segment: Vec<(String, Vec<Moment>)>,
    /// Named expression trees over state (see `expr`).
    pub preconditions: Vec<(String, JsonValue)>,
    /// Routing tables: ordered candidates, the first whose precondition
    /// passes wins.
    pub segment_groups: Vec<(String, Vec<GroupItem>)>,
    /// Initial values of the two state scopes.
    pub state_history: Option<StateHistory>,
    pub audio_locale: Option<String>,
    pub kind: Option<String>,
}

pub struct StateHistory {
    pub global: StateMap,
    pub persistent: StateMap,
}

/// A candidate of a segment group.
pub enum GroupItem {
    /// Bare segment id (or group name).
    Ref(String),
    /// Segment gated by a precondition (none: unconditional).
    Segment { segment: String, precondition: Option<String> },
    /// Defer to another segment group.
    Group { segment_group: String },
}

/// One timed interactive event on a segment. Choice moments (`scene:*`)
/// carry the choice list; notification moments mostly carry state writes.
pub struct Moment {
    pub kind: Option<String>,
    pub id: Option<String>,
    pub start_ms: Option<i64>,
    pub end_ms: Option<i64>,
    pub ui_display_ms: Option<i64>,
    pub ui_interaction_start_ms: Option<i64>,
    pub ui_hide_ms: Option<i64>,
    pub choice_activation_threshold_ms: Option<i64>,
    pub activation_window: Option<Vec<i64>>,
    pub default_choice_index: Option<i64>,
    pub choices: Option<Vec<Choice>>,
    /// State writes applied when the moment is shown or selected.
    pub impression_data: Option<JsonValue>,
    pub precondition_id: Option<String>,
    /// Inline precondition expression.
    pub precondition: Option<JsonValue>,
    pub layout_type: Option<String>,
    pub header_text: Option<String>,
    pub body_text: Option<String>,
    pub timeout_segment: Option<TimeoutSegment>,
}

/// One option of a choice moment.
pub struct Choice {
    pub id: Option<String>,
    pub text: Option<String>,
    pub sub_text: Option<String>,
    /// Choice art: a sprite URL and CSS-like styles.
    pub background: Option<JsonValue>,
    pub segment_id: Option<String>,
    /// Segment-group target (used instead of a direct segment by some titles).
    pub sg: Option<String>,
    /// The target segment's `startTimeMs`, duplicated from the manifest.
    pub start_time_ms: Option<i64>,
    pub impression_data: Option<JsonValue>,
    pub precondition_id: Option<String>,
    pub default: Option<JsonValue>,
    pub overrides: Option<JsonValue>,
}

pub struct TimeoutSegment {
    pub segment_id: Option<String>,
}

/// A matched manifest and info file, parsed.
pub struct InteractiveBundle {
    pub manifest_path: String,
    pub info_path: String,
    pub manifest: Manifest,
    pub moments: MomentsValue,
    /// The video id under `jsonGraph.videos` when the info file is a Falcor
    /// cache.
    pub info_video_id: Option<String>,
}

// ---------------------------------------------------------------------------
// Telling the two files apart
// ---------------------------------------------------------------------------

/// The `value` member of a node when it has one, else the node.
pub open spec fn unwrap_value(ivm: Json) -> Json {
    match member_spec(ivm, "value"@) {
        Some(v) => v,
        None => ivm,
    }
}

/// First video among `vs[i..]` carrying `interactiveVideoMoments`.
pub open spec fn first_video(vs: Seq<(Seq<char>, Json)>, i: int) -> Option<(Json, Option<Seq<char>>)>
    decreases vs.len() - i,
{
    if i < 0 || i >= vs.len() {
        None
    } else {
        match member_spec(vs[i].1, "interactiveVideoMoments"@) {
            Some(ivm) => Some((unwrap_value(ivm), Some(vs[i].0))),
            None => first_video(vs, i + 1),
        }
    }
}

/// Where the `interactiveVideoMoments` payload of `root` sits, and the video
/// id when it sits in a Falcor cache.
pub open spec fn extract_spec(root: Json) -> Option<(Json, Option<Seq<char>>)> {
    match member_spec(root, "interactiveVideoMoments"@) {
        Some(ivm) => Some((unwrap_value(ivm), None)),
        None => match member_spec(root, "jsonGraph"@) {
            Some(jg) => match member_spec(jg, "videos"@) {
                Some(Json::Object(vs)) => first_video(vs, 0),
                _ => None,
            },
            None => None,
        },
    }
}

fn unwrap_value_exec(ivm: &JsonValue) -> (r: &JsonValue)
    ensures
        r@ == unwrap_value(ivm@),
{
    match ivm.get("value") {
        Some(v) => v,
        None => ivm,
    }
}

/// Locate the `interactiveVideoMoments` payload: at the top level, or inside
/// a Falcor cache under `jsonGraph.videos.<id>` (then with the video id).
/// A `value` wrapper is unwrapped.
pub fn extract_moments(root: &JsonValue) -> (r: Option<(&JsonValue, Option<String>)>)
    ensures
        match extract_spec(root@) {
            Some((v, id)) => r matches Some((x, y)) && x@ == v && match id {
                Some(s) => y matches Some(t) && t@ == s,
                None => y is None,
            },
            None => r is None,
        },
{
    if let Some(ivm) = root.get("interactiveVideoMoments") {
        return Some((unwrap_value_exec(ivm), None));
    }
    let jg = match root.get("jsonGraph") {
        Some(jg) => jg,
        None => {
            return None;
        },
    };
    let vs = match jg.get("videos") {
        Some(v) => match v.as_object() {
            Some(vs) => vs,
            None => {
                return None;
            },
        },
        None => {
            return None;
        },
    };
    let ghost views = entry_views(vs@);
    proof {
        lemma_entry_views(vs@);
    }
    let mut i: usize = 0;
    while i < vs.len()
        invariant
            i <= vs@.len(),
            views == entry_views(vs@),
            views.len() == vs@.len(),
            forall|k: int| 0 <= k < vs@.len() ==> #[trigger] views[k] == (vs@[k].0@, vs@[k].1@),
            extract_spec(root@) == first_video(views, i as int),
        decreases vs.len() - i,
    {
        if let Some(ivm) = vs[i].1.get("interactiveVideoMoments") {
            return Some((unwrap_value_exec(ivm), Some(vs[i].0.clone())));
        }
        i += 1;
    }
    None
}

/// A manifest is any JSON with a string `initialSegment` and a `segments`
/// object whose first entry carries `startTimeMs`.
pub open spec fn manifest_like(root: Json) -> bool {
    &&& member_spec(root, "initialSegment"@) matches Some(Json::Str(_))
    &&& match member_spec(root, "segments"@) {
        Some(Json::Object(es)) => es.len() > 0 && member_spec(es[0].1, "startTimeMs"@) is Some,
        _ => false,
    }
}

/// Whether `root` looks like a segment manifest (see `manifest_like`).
pub fn looks_like_manifest(root: &JsonValue) -> (b: bool)
    ensures
        b == manifest_like(root@),
{
    let init_is_string = match root.get("initialSegment") {
        Some(v) => v.is_string(),
        None => false,
    };
    if !init_is_string {
        return false;
    }
    match root.get("segments") {
        Some(v) => match v.as_object() {
            Some(es) => {
                proof {
                    lemma_entry_views(es@);
                }
                if es.len() == 0 {
                    false
                } else {
                    es[0].1.get("startTimeMs").is_some()
                }
            },
            None => false,
        },
        None => false,
    }
}

/// The manifest and info file found so far among a folder's JSON files, by
/// name and parsed content.
pub struct Classification {
    pub manifest: Option<(String, JsonValue)>,
    pub info: Option<(String, JsonValue)>,
}

impl Classification {
    /// Nothing found yet.
    pub fn new() -> (c: Classification)
        ensures
            c.manifest is None,
            c.info is None,
    {
        Classification { manifest: None, info: None }
    }

    /// Both files have been found: further candidates need not be read.
    pub fn is_complete(&self) -> (b: bool)
        ensures
            b == (self.manifest is Some && self.info is Some),
    {
        self.manifest.is_some() && self.info.is_some()
    }

    /// Take the next candidate file (in name order): it becomes the info file
    /// when none was found yet and it carries the moments payload, else the
    /// manifest when none was found yet and it looks like one; otherwise it is
    /// passed over.
    pub fn offer(&mut self, name: String, root: JsonValue)
        ensures
            if old(self).info is None && extract_spec(root@) is Some {
                final(self).info == Some((name, root)) && final(self).manifest == old(self).manifest
            } else if old(self).manifest is None && manifest_like(root@) {
                final(self).manifest == Some((name, root)) && final(self).info == old(self).info
            } else {
                *final(self) == *old(self)
            },
    {
        if self.info.is_none() && extract_moments(&root).is_some() {
            self.info = Some((name, root));
        } else if self.manifest.is_none() && looks_like_manifest(&root) {
            self.manifest = Some((name, root));
        }
    }
}

/// Scan-time detection: the names of the manifest and info file when both
/// were found. A half-bundle counts as not interactive.
pub fn detect_bundle_files(found: &Classification) -> (r: Option<(String, String)>)
    ensures
        match (found.manifest, found.info) {
            (Some((m, _)), Some((i, _))) => r matches Some((a, b)) && a@ == m@ && b@ == i@,
            _ => r is None,
        },
{
    match (&found.manifest, &found.info) {
        (Some((m, _)), Some((i, _))) => Some((m.clone(), i.clone())),
        _ => None,
    }
}

/// What the loader makes of a classification: `Ok(false)` when the folder is
/// not an interactive bundle, `Ok(true)` when both files are there, and an
/// error for a half-bundle.
pub fn pair_status(found: &Classification) -> (r: Result<bool, String>)
    ensures
        match (found.manifest, found.info) {
            (None, None) => r == Ok::<bool, String>(false),
            (Some(_), Some(_)) => r == Ok::<bool, String>(true),
            (Some(_), None) => r matches Err(e) && e@
                == "found an interactive manifest but no info file (interactiveVideoMoments)"@,
            (None, Some(_)) => r matches Err(e) && e@ == "found an interactive info file but no segment manifest"@,
        },
{
    match (&found.manifest, &found.info) {
        (None, None) => Ok(false),
        (Some(_), Some(_)) => Ok(true),
        (Some(_), None) => Err(
            String::from_str("found an interactive manifest but no info file (interactiveVideoMoments)"),
        ),
        (None, Some(_)) => Err(String::from_str("found an interactive info file but no segment manifest")),
    }
}

// ---------------------------------------------------------------------------
// Which files of a folder are read
// ---------------------------------------------------------------------------

/// JSON files larger than this are passed over (the real info file is about
/// 1 MB; anything huge next to the video is not interactive metadata).
pub const MAX_JSON_BYTES: u64 = 64 * 1024 * 1024;

/// A directory entry as listed.
pub struct DirEntryInfo {
    pub name: String,
    pub is_file: bool,
    pub size: u64,
}

/// The name has the extension `json` in any ASCII case (`Path::extension`:
/// after the last `.`, which must not lead the name).
pub open spec fn has_json_ext(name: Seq<char>) -> bool {
    match last_dot(name) {
        Some(d) => d > 0 && ascii_lower_seq(name.subrange(d + 1, name.len() as int)) == "json"@,
        None => false,
    }
}

pub open spec fn is_json_candidate(e: DirEntryInfo) -> bool {
    e.is_file && e.size <= MAX_JSON_BYTES && has_json_ext(e.name@)
}

/// The names of the candidates among the first `n` entries, in listing
/// order.
pub open spec fn candidate_names(es: Seq<DirEntryInfo>, n: int) -> Seq<Seq<char>>
    decreases n,
{
    if n <= 0 || n > es.len() {
        Seq::empty()
    } else if is_json_candidate(es[n - 1]) {
        candidate_names(es, n - 1).push(es[n - 1].name@)
    } else {
        candidate_names(es, n - 1)
    }
}

pub open spec fn name_views(v: Seq<String>) -> Seq<Seq<char>> {
    v.map_values(|s: String| s@)
}

fn json_ext(name: &str) -> (b: bool)
    ensures
        b == has_json_ext(name@),
{
    let c = chars_of(name);
    match rfind(&c, '.') {
        Some(d) => {
            proof {
                crate::naming::lemma_last_dot_eq(c@);
            }
            if d == 0 {
                return false;
            }
            let n = c.len();
            let ext = copy_range(&c, d + 1, n);
            let low = ascii_lowercase(&ext);
            let want = chars_of("json");
            chars_eq(&low, &want)
        },
        None => {
            proof {
                crate::naming::lemma_last_dot_eq(c@);
            }
            false
        },
    }
}

/// The files of a folder that may be bundle JSON, in name order: regular
/// files with a `json` extension (any ASCII case) of at most
/// `MAX_JSON_BYTES`.
pub fn json_candidates(entries: &[DirEntryInfo]) -> (r: Vec<String>)
    ensures
        name_views(r@).to_multiset() == candidate_names(entries@, entries@.len() as int).to_multiset(),
        forall|a: int, b: int| 0 <= a < b < r@.len() ==> !str_lt(#[trigger] r@[b]@, #[trigger] r@[a]@),
{
    let mut out: Vec<String> = Vec::new();
    let mut k: usize = 0;
    assert(name_views(out@) =~= candidate_names(entries@, 0));
    while k < entries.len()
        invariant
            k <= entries@.len(),
            name_views(out@).to_multiset() == candidate_names(entries@, k as int).to_multiset(),
            forall|a: int, b: int| 0 <= a < b < out@.len() ==> !str_lt(#[trigger] out@[b]@, #[trigger] out@[a]@),
        decreases entries.len() - k,
    {
        let e = &entries[k];
        let take = e.is_file && e.size <= MAX_JSON_BYTES && json_ext(e.name.as_str());
        if take {
            let x = e.name.clone();
            let mut p: usize = 0;
            while p < out.len() && !str_less(x.as_str(), out[p].as_str())
                invariant
                    p <= out@.len(),
                    forall|q: int| 0 <= q < p ==> !str_lt(x@, #[trigger] out@[q]@),
                decreases out.len() - p,
            {
                p += 1;
            }
            let ghost before = out@;
            proof {
                assert forall|q: int| p <= q < before.len() implies !str_lt(#[trigger] before[q]@, x@) by {
                    lemma_str_lt_order(x@, before[p as int]@, before[q]@);
                    lemma_str_lt_order(before[q]@, x@, before[p as int]@);
                    if q > p {
                        lemma_str_lt_order(before[q]@, before[p as int]@, x@);
                    }
                }
                assert forall|q: int| 0 <= q < p implies !str_lt(x@, #[trigger] before[q]@) by {}
            }
            out.insert(p, x);
            proof {
                assert(name_views(out@) =~= name_views(before).insert(p as int, e.name@));
                vstd::seq_lib::to_multiset_insert(name_views(before), p as int, e.name@);
                assert(candidate_names(entries@, k + 1) == candidate_names(entries@, k as int).push(e.name@));
                vstd::seq_lib::to_multiset_build(candidate_names(entries@, k as int), e.name@);
                assert forall|a: int, b: int| 0 <= a < b < out@.len() implies !str_lt(#[trigger] out@[b]@, #[trigger] out@[a]@) by {
                    if a < p && b == p {
                        lemma_str_lt_order(before[a]@, x@, x@);
                    } else if a < p && b > p {
                        assert(out@[b] == before[b - 1]);
                        lemma_str_lt_order(before[b - 1]@, x@, before[a]@);
                        lemma_str_lt_order(before[b - 1]@, before[a]@, x@);
                    } else if a == p {
                        assert(out@[b] == before[b - 1]);
                    } else if b < p {
                        assert(out@[a] == before[a] && out@[b] == before[b]);
                    } else {
                        assert(out@[a] == before[a - 1] && out@[b] == before[b - 1]);
                    }
                }
            }
        } else {
            proof {
                assert(candidate_names(entries@, k + 1) == candidate_names(entries@, k as int));
            }
        }
        k += 1;
    }
    out
}

} // verus!
