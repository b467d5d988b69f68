//! The viewer-facing side of a session: choice windows, picks, the
//! decision timeline, rewind and skip requests, and what the frontend is
//! shown of the session.

use vstd::prelude::*;
use crate::choice::{
    art_spec, choice_art, choice_label, choice_target, is_choice_spec, label_of_choice, moment_is_choice,
    moment_window, target_spec, window_spec,
};
use crate::interactive::{Choice, InteractiveBundle, Moment};
use crate::json::{Json, JsonValue};
use crate::keyed::{find_key, lookup};
use crate::session::{impression_writes, moment_passes_spec, opt_str, precondition_spec, Shared};
use crate::state::{any_change, insert_all, truthy_keys, StateMap};

verus! {

/// One visible choice as the frontend renders it. Image-only choices carry
/// a locally resolved sprite path (with the format's CSS sizing) and a text
/// fallback derived from the sprite name.
pub struct ChoiceView {
    pub text: String,
    pub sub_text: Option<String>,
    pub image_path: Option<String>,
    pub image_size: Option<String>,
    pub image_position: Option<String>,
}

/// A choice window as the frontend is told of it. Times are video-absolute
/// ms; `remaining_ms` is as of the moment it was produced.
pub struct ChoiceOpen {
    pub segment_id: String,
    pub choices: Vec<ChoiceView>,
    pub default_index: usize,
    pub remaining_ms: i64,
    pub total_ms: i64,
    pub layout_type: Option<String>,
    pub selected_index: Option<usize>,
}

/// A live choice window: the view plus what each pick does (jump target —
/// a segment id or group name — and state writes).
pub struct OpenChoice {
    pub view: ChoiceOpen,
    pub targets: Vec<Option<String>>,
    pub impressions: Vec<Option<JsonValue>>,
    pub window_end_ms: i64,
}

/// One decision point on the current path, captured just before its choice
/// window opened (state included, so restoring one is always consistent).
pub struct ChoiceSnapshot {
    pub segment_id: String,
    pub story_ms: i64,
    pub global: StateMap,
    pub persistent: StateMap,
    pub selected_index: Option<usize>,
    /// The options as shown.
    pub choice_texts: Vec<String>,
    /// File ms of the window opening.
    pub file_ms: i64,
    /// Traversal-path length when the snapshot was taken.
    pub path_len: usize,
}

/// Branch-jump measurements for the stats panel.
pub struct JumpMetrics {
    pub jumps: u32,
    pub seek_jumps: u32,
    pub last_from: Option<String>,
    pub last_to: Option<String>,
    pub last_latency_ms: Option<i64>,
}

impl JumpMetrics {
    pub open spec fn empty() -> JumpMetrics {
        JumpMetrics { jumps: 0, seek_jumps: 0, last_from: None, last_to: None, last_latency_ms: None }
    }

    /// No jump measured yet.
    pub fn new() -> (m: JumpMetrics)
        ensures
            m == JumpMetrics::empty(),
    {
        JumpMetrics { jumps: 0, seek_jumps: 0, last_from: None, last_to: None, last_latency_ms: None }
    }

    pub fn copy(&self) -> (m: JumpMetrics)
        ensures
            m.jumps == self.jumps,
            m.seek_jumps == self.seek_jumps,
            opt_str(m.last_from) == opt_str(self.last_from),
            opt_str(m.last_to) == opt_str(self.last_to),
            m.last_latency_ms == self.last_latency_ms,
    {
        JumpMetrics {
            jumps: self.jumps,
            seek_jumps: self.seek_jumps,
            last_from: self.last_from.clone(),
            last_to: self.last_to.clone(),
            last_latency_ms: self.last_latency_ms,
        }
    }
}

/// The live session as the frontend rehydrates it.
pub struct InteractiveStatus {
    pub entry_id: i64,
    pub library_id: String,
    pub title: String,
    pub segment_id: String,
    pub choice: Option<ChoiceOpen>,
}

/// One decision point of the timeline.
pub struct HistoryEntry {
    pub index: usize,
    pub segment_id: String,
    pub story_ms: i64,
    pub file_ms: i64,
    pub choice_texts: Vec<String>,
    pub selected_index: Option<usize>,
}

/// The engine's view of the session, for the stats panel.
pub struct InteractiveDebug {
    pub segment_id: String,
    pub segment_start_ms: i64,
    pub segment_end_ms: Option<i64>,
    pub story_ms: Option<i64>,
    pub pending_target: Option<String>,
    pub choice_open: bool,
    pub snapshot_count: usize,
    pub path_len: usize,
    pub persistent_set: usize,
    pub global_set: usize,
    pub metrics: JumpMetrics,
}

pub open spec fn strs(v: Seq<String>) -> Seq<Seq<char>> {
    v.map_values(|s: String| s@)
}

fn copy_strings(v: &Vec<String>) -> (r: Vec<String>)
    ensures
        strs(r@) == strs(v@),
{
    let mut out: Vec<String> = Vec::new();
    let mut i: usize = 0;
    while i < v.len()
        invariant
            i <= v@.len(),
            out@ == v@.take(i as int),
        decreases v.len() - i,
    {
        out.push(v[i].clone());
        i += 1;
        assert(out@ =~= v@.take(i as int));
    }
    assert(v@.take(v@.len() as int) =~= v@);
    out
}

/// The same view of a choice, field for field.
pub open spec fn same_view(a: ChoiceView, b: ChoiceView) -> bool {
    &&& a.text@ == b.text@
    &&& opt_str(a.sub_text) == opt_str(b.sub_text)
    &&& opt_str(a.image_path) == opt_str(b.image_path)
    &&& opt_str(a.image_size) == opt_str(b.image_size)
    &&& opt_str(a.image_position) == opt_str(b.image_position)
}

/// The same window, field for field, except the remaining time.
pub open spec fn same_open(a: ChoiceOpen, b: ChoiceOpen) -> bool {
    &&& a.segment_id@ == b.segment_id@
    &&& a.choices@.len() == b.choices@.len()
    &&& forall|i: int| 0 <= i < a.choices@.len() ==> same_view(#[trigger] a.choices@[i], b.choices@[i])
    &&& a.default_index == b.default_index
    &&& a.total_ms == b.total_ms
    &&& opt_str(a.layout_type) == opt_str(b.layout_type)
    &&& a.selected_index == b.selected_index
}

impl ChoiceView {
    pub fn copy(&self) -> (r: ChoiceView)
        ensures
            same_view(r, *self),
    {
        ChoiceView {
            text: self.text.clone(),
            sub_text: self.sub_text.clone(),
            image_path: self.image_path.clone(),
            image_size: self.image_size.clone(),
            image_position: self.image_position.clone(),
        }
    }
}

impl ChoiceOpen {
    /// A copy with `remaining_ms` replaced.
    pub fn copy_with_remaining(&self, remaining_ms: i64) -> (r: ChoiceOpen)
        ensures
            same_open(r, *self),
            r.remaining_ms == remaining_ms,
    {
        let mut choices: Vec<ChoiceView> = Vec::new();
        let mut i: usize = 0;
        while i < self.choices.len()
            invariant
                i <= self.choices@.len(),
                choices@.len() == i,
                forall|k: int| 0 <= k < i ==> same_view(#[trigger] choices@[k], self.choices@[k]),
            decreases self.choices.len() - i,
        {
            choices.push(self.choices[i].copy());
            i += 1;
        }
        ChoiceOpen {
            segment_id: self.segment_id.clone(),
            choices,
            default_index: self.default_index,
            remaining_ms,
            total_ms: self.total_ms,
            layout_type: self.layout_type.clone(),
            selected_index: self.selected_index,
        }
    }
}

/// `max(a, b)`.
pub open spec fn max_i(a: int, b: int) -> int {
    if a >= b {
        a
    } else {
        b
    }
}

/// `a - b` clamped to the `i64` range.
pub open spec fn sat_sub(a: int, b: int) -> int {
    let v = a - b;
    if v > i64::MAX {
        i64::MAX as int
    } else if v < i64::MIN {
        i64::MIN as int
    } else {
        v
    }
}

/// `a + b` clamped to the `i64` range.
pub open spec fn sat_add(a: int, b: int) -> int {
    sat_sub(a, -b)
}

/// Story time at playback position `pos` in a segment entered at story time
/// `base` that starts at `start`: `base + max(pos - start, 0)`.
pub open spec fn story_at(base: int, pos: int, start: int) -> int {
    sat_add(base, max_i(sat_sub(pos, start), 0))
}

/// `a - b`, clamped to the `i64` range.
pub fn sub_sat(a: i64, b: i64) -> (r: i64)
    ensures
        r == sat_sub(a as int, b as int),
{
    let v = (a as i128) - (b as i128);
    if v > i64::MAX as i128 {
        i64::MAX
    } else if v < i64::MIN as i128 {
        i64::MIN
    } else {
        v as i64
    }
}

/// `a + b`, clamped to the `i64` range.
pub fn add_sat(a: i64, b: i64) -> (r: i64)
    ensures
        r == sat_add(a as int, b as int),
{
    let v = (a as i128) + (b as i128);
    if v > i64::MAX as i128 {
        i64::MAX
    } else if v < i64::MIN as i128 {
        i64::MIN
    } else {
        v as i64
    }
}

pub fn story_ms_at(base: i64, pos: i64, start: i64) -> (r: i64)
    ensures
        r == story_at(base as int, pos as int, start as int),
{
    let d = sub_sat(pos, start);
    let d = if d > 0 {
        d
    } else {
        0
    };
    add_sat(base, d)
}

impl Shared {
    /// The viewer picked choice `index`. State writes apply at once; the
    /// jump commits when the segment ends. The first pick wins: once the
    /// window has a selection, a later pick changes nothing. Returns whether
    /// the persistent scope changed.
    pub fn pick_choice(&mut self, index: usize) -> (r: Result<bool, String>)
        ensures
            match old(self).open {
                None => r matches Err(e) && e@ == "No choice is open"@ && *final(self) == *old(self),
                Some(o) => if index >= o.view.choices@.len() {
                    r matches Err(e) && e@ == "Choice index out of range"@ && *final(self) == *old(self)
                } else if o.view.selected_index is Some {
                    r == Ok::<bool, String>(false) && *final(self) == *old(self)
                } else {
                    let imp: Option<JsonValue> = if index < o.impressions@.len() {
                        o.impressions@[index as int]
                    } else {
                        None
                    };
                    let writes_g = match imp {
                        Some(v) => impression_writes(v@, "global"@),
                        None => Seq::empty(),
                    };
                    let writes_p = match imp {
                        Some(v) => impression_writes(v@, "persistent"@),
                        None => Seq::empty(),
                    };
                    let target: Option<String> = if index < o.targets@.len() {
                        o.targets@[index as int]
                    } else {
                        None
                    };
                    &&& r == Ok::<bool, String>(any_change(old(self).persistent@, writes_p))
                    &&& final(self).global@ == insert_all(old(self).global@, writes_g)
                    &&& final(self).persistent@ == insert_all(old(self).persistent@, writes_p)
                    &&& final(self).open matches Some(n) && n.view.selected_index == Some(index)
                        && n.targets == o.targets && n.impressions == o.impressions
                        && n.window_end_ms == o.window_end_ms
                    &&& opt_str(final(self).pending_target) == match target {
                        Some(t) => Some(t@),
                        None => opt_str(old(self).pending_target),
                    }
                    &&& final(self).current_segment == old(self).current_segment
                    &&& final(self).snapshots == old(self).snapshots
                    &&& final(self).path == old(self).path
                },
            },
    {
        let (n, selected) = match &self.open {
            None => {
                return Err(String::from_str("No choice is open"));
            },
            Some(o) => (o.view.choices.len(), o.view.selected_index.is_some()),
        };
        if index >= n {
            return Err(String::from_str("Choice index out of range"));
        }
        if selected {
            return Ok(false);
        }
        let mut open = self.open.take().unwrap();
        open.view.selected_index = Some(index);
        let target = if index < open.targets.len() {
            match &open.targets[index] {
                Some(t) => Some(t.clone()),
                None => None,
            }
        } else {
            None
        };
        let impression = if index < open.impressions.len() {
            match &open.impressions[index] {
                Some(v) => Some(v.deep_copy()),
                None => None,
            }
        } else {
            None
        };
        self.open = Some(open);
        let changed = match impression {
            Some(imp) => self.apply_impression(&imp),
            None => {
                proof {
                    assert(insert_all(self.global@, Seq::empty()) == self.global@);
                    assert(insert_all(self.persistent@, Seq::empty()) == self.persistent@);
                }
                false
            },
        };
        if let Some(t) = target {
            self.pending_target = Some(t);
        }
        Ok(changed)
    }

    /// The decision points of the current playthrough, oldest first.
    pub fn history(&self) -> (r: Vec<HistoryEntry>)
        ensures
            r@.len() == self.snapshots@.len(),
            forall|i: int|
                0 <= i < r@.len() ==> {
                    let h = #[trigger] r@[i];
                    let s = self.snapshots@[i];
                    &&& h.index == i
                    &&& h.segment_id@ == s.segment_id@
                    &&& h.story_ms == s.story_ms
                    &&& h.file_ms == s.file_ms
                    &&& strs(h.choice_texts@) == strs(s.choice_texts@)
                    &&& h.selected_index == s.selected_index
                },
    {
        let mut out: Vec<HistoryEntry> = Vec::new();
        let mut i: usize = 0;
        while i < self.snapshots.len()
            invariant
                i <= self.snapshots@.len(),
                out@.len() == i,
                forall|k: int|
                    0 <= k < i ==> {
                        let h = #[trigger] out@[k];
                        let s = self.snapshots@[k];
                        &&& h.index == k
                        &&& h.segment_id@ == s.segment_id@
                        &&& h.story_ms == s.story_ms
                        &&& h.file_ms == s.file_ms
                        &&& strs(h.choice_texts@) == strs(s.choice_texts@)
                        &&& h.selected_index == s.selected_index
                    },
            decreases self.snapshots.len() - i,
        {
            let s = &self.snapshots[i];
            out.push(
                HistoryEntry {
                    index: i,
                    segment_id: s.segment_id.clone(),
                    story_ms: s.story_ms,
                    file_ms: s.file_ms,
                    choice_texts: copy_strings(&s.choice_texts),
                    selected_index: s.selected_index,
                },
            );
            i += 1;
        }
        out
    }

    /// Ask to jump back to decision point `index` (applied on the next tick).
    pub fn request_rewind(&mut self, index: usize) -> (r: Result<(), String>)
        ensures
            index >= old(self).snapshots@.len() ==> (r matches Err(e) && e@ == "No such decision point"@
                && *final(self) == *old(self)),
            index < old(self).snapshots@.len() ==> r is Ok && *final(self) == (Shared {
                rewind_request: Some(index),
                ..*old(self)
            }),
    {
        if index >= self.snapshots.len() {
            return Err(String::from_str("No such decision point"));
        }
        self.rewind_request = Some(index);
        Ok(())
    }

    /// Ask for a skip of `delta_ms`, clamped to a minute either way (the
    /// driver applies the segment clamps).
    pub fn request_skip(&mut self, delta_ms: i64)
        ensures
            *final(self) == (Shared {
                skip_request_ms: Some(
                    if delta_ms < -60_000 {
                        -60_000i64
                    } else if delta_ms > 60_000 {
                        60_000i64
                    } else {
                        delta_ms
                    },
                ),
                ..*old(self)
            }),
    {
        let d = if delta_ms < -60_000 {
            -60_000
        } else if delta_ms > 60_000 {
            60_000
        } else {
            delta_ms
        };
        self.skip_request_ms = Some(d);
    }

    /// The live session for rehydration: the open window, if any, with its
    /// remaining time recomputed when the playback position is known.
    pub fn status(&self, pos_ms: Option<i64>) -> (r: InteractiveStatus)
        ensures
            r.entry_id == self.entry_id,
            r.library_id@ == self.library_id@,
            r.title@ == self.title@,
            r.segment_id@ == self.current_segment@,
            match self.open {
                Some(o) => r.choice matches Some(c) && same_open(c, o.view) && c.remaining_ms == match pos_ms {
                    Some(p) => max_i(sat_sub(o.window_end_ms as int, p as int), 0),
                    None => o.view.remaining_ms as int,
                },
                None => r.choice is None,
            },
    {
        let choice = match &self.open {
            Some(o) => {
                let remaining = match pos_ms {
                    Some(p) => {
                        let d = sub_sat(o.window_end_ms, p);
                        if d > 0 {
                            d
                        } else {
                            0
                        }
                    },
                    None => o.view.remaining_ms,
                };
                Some(o.view.copy_with_remaining(remaining))
            },
            None => None,
        };
        InteractiveStatus {
            entry_id: self.entry_id,
            library_id: self.library_id.clone(),
            title: self.title.clone(),
            segment_id: self.current_segment.clone(),
            choice,
        }
    }
}

/// Act this many ms before a segment's end so a non-contiguous jump never
/// shows frames of the physically next (wrong) segment.
pub const BOUNDARY_EPS_MS: i64 = 24;

/// The moments of the current segment visit that have fired, by index.
pub struct Fired {
    pub ids: Vec<usize>,
}

impl Fired {
    pub fn new() -> (f: Fired)
        ensures
            f.ids@.len() == 0,
    {
        Fired { ids: Vec::new() }
    }

    pub fn has(&self, i: usize) -> (b: bool)
        ensures
            b == self.ids@.contains(i),
    {
        let mut k: usize = 0;
        while k < self.ids.len()
            invariant
                k <= self.ids@.len(),
                forall|j: int| 0 <= j < k ==> self.ids@[j] != i,
            decreases self.ids.len() - k,
        {
            if self.ids[k] == i {
                return true;
            }
            k += 1;
        }
        false
    }

    pub fn insert(&mut self, i: usize)
        ensures
            forall|j: usize| #[trigger] final(self).ids@.contains(j) == (old(self).ids@.contains(j) || j == i),
    {
        if !self.has(i) {
            let ghost before = self.ids@;
            self.ids.push(i);
            proof {
                assert forall|j: usize| #[trigger] self.ids@.contains(j) == (before.contains(j) || j == i) by {
                    if before.contains(j) {
                        let k = choose|k: int| 0 <= k < before.len() && before[k] == j;
                        assert(self.ids@[k] == j);
                    }
                    if self.ids@.contains(j) {
                        let k = choose|k: int| 0 <= k < self.ids@.len() && self.ids@[k] == j;
                        if k < before.len() {
                            assert(before[k] == j);
                        }
                    }
                    if j == i {
                        assert(self.ids@[before.len() as int] == j);
                    }
                }
            }
        }
    }

    pub fn clear(&mut self)
        ensures
            final(self).ids@.len() == 0,
    {
        self.ids = Vec::new();
    }
}

/// The moments of segment `cur`.
pub open spec fn segment_moments(b: InteractiveBundle, cur: Seq<char>) -> Seq<Moment> {
    match find_key(b.moments.moments_by_segment@, cur) {
        Some(k) => b.moments.moments_by_segment@[k].1@,
        None => Seq::empty(),
    }
}

/// An unfired choice moment whose window holds `pos`: skips are dead then.
pub open spec fn skip_blocked(ms: Seq<Moment>, fired: Seq<usize>, pos: int) -> bool {
    exists|i: int|
        0 <= i < ms.len() && !fired.contains(i as usize) && is_choice_spec(#[trigger] ms[i]) && (window_spec(ms[i]) matches Some(w) && w.0 <= pos < w.1)
}

pub open spec fn min_i(a: int, b: int) -> int {
    if a <= b {
        a
    } else {
        b
    }
}

/// `t` lowered to the start of every unfired choice window among the first
/// `n` moments that opens after `pos`.
pub open spec fn clamp_to_choices(ms: Seq<Moment>, fired: Seq<usize>, pos: int, t: int, n: int) -> int
    decreases n,
{
    if n <= 0 || n > ms.len() {
        t
    } else {
        let prev = clamp_to_choices(ms, fired, pos, t, n - 1);
        let m = ms[n - 1];
        if !fired.contains((n - 1) as usize) && is_choice_spec(m) && (window_spec(m) matches Some(w) && w.0 > pos) {
            min_i(prev, (window_spec(m)->0).0 as int)
        } else {
            prev
        }
    }
}

/// A forward skip from `pos` passes over moment `i`: it has not fired, is
/// not a choice, and its window opens in `(pos, target]`.
pub open spec fn skipped_over(ms: Seq<Moment>, fired: Seq<usize>, pos: int, target: int, i: int) -> bool {
    &&& !fired.contains(i as usize)
    &&& !is_choice_spec(ms[i])
    &&& window_spec(ms[i]) matches Some(w) && pos < w.0 <= target
}

/// The state after the state writes of the moments among the first `n`
/// that a skip passes over, applied in order (each gated by its
/// preconditions as the state stands then), and whether the persistent
/// scope changed.
pub open spec fn skip_writes(
    b: InteractiveBundle,
    g: Map<Seq<char>, Json>,
    p: Map<Seq<char>, Json>,
    ms: Seq<Moment>,
    fired: Seq<usize>,
    pos: int,
    target: int,
    n: int,
) -> (Map<Seq<char>, Json>, Map<Seq<char>, Json>, bool)
    decreases n,
{
    if n <= 0 || n > ms.len() {
        (g, p, false)
    } else {
        let prev = skip_writes(b, g, p, ms, fired, pos, target, n - 1);
        let m = ms[n - 1];
        if skipped_over(ms, fired, pos, target, n - 1) && moment_passes_spec(b, prev.0, prev.1, m)
            && m.impression_data is Some {
            let imp = m.impression_data->0@;
            (
                insert_all(prev.0, impression_writes(imp, "global"@)),
                insert_all(prev.1, impression_writes(imp, "persistent"@)),
                prev.2 || any_change(prev.1, impression_writes(imp, "persistent"@)),
            )
        } else {
            prev
        }
    }
}

/// The effect of a skip of `delta` ms at `pos_ms` from state `s0` with
/// fired moments `f0`, giving outcome `r`, state `s1` and fired moments `f1`
/// (see `Shared::skip`).
pub open spec fn skip_post(b: InteractiveBundle, s0: Shared, pos_ms: i64, delta: i64, f0: Seq<usize>, r: RequestOutcome, s1: Shared, f1: Seq<usize>) -> bool {
    let segs = b.manifest.segments@;
    let cur = s0.current_segment@;
    let ms = segment_moments(b, cur);
    let pos = pos_ms as int;
    if s0.open is Some || find_key(segs, cur) is None || skip_blocked(ms, f0, pos) {
        r.seek_ms is None && !r.save_persistent && r.rewound_to is None && s1 == s0
            && f1 == f0
    } else {
        let seg = segs[find_key(segs, cur)->0].1;
        if delta < 0 {
            let t = max_i(sat_add(pos, delta as int), seg.start_time_ms as int);
            &&& r.seek_ms == if t < pos - 250 { Some(t as i64) } else { None }
            &&& !r.save_persistent && r.rewound_to is None
            &&& s1 == s0
            &&& f1 == f0
        } else {
            let t0 = sat_add(pos, delta as int);
            let t1 = match seg.end_time_ms {
                Some(e) => min_i(t0, sat_sub(e as int, BOUNDARY_EPS_MS as int)),
                None => t0,
            };
            let t = clamp_to_choices(ms, f0, pos, t1, ms.len() as int);
            let w = skip_writes(b, s0.global@, s0.persistent@, ms, f0, pos, t, if t > pos { ms.len() as int } else { 0 });
            &&& r.seek_ms == if t > pos + 250 { Some(t as i64) } else { None }
            &&& r.save_persistent == w.2
            &&& r.rewound_to is None
            &&& s1.global@ == w.0
            &&& s1.persistent@ == w.1
            &&& s1 == (Shared { global: s1.global, persistent: s1.persistent, ..s0 })
            &&& forall|j: usize| #[trigger] f1.contains(j) == (f0.contains(j) || (t > pos && j < ms.len() && skipped_over(ms, f0, pos, t, j as int)))
        }
    }
}

/// What a handled request asks of the player and the store.
pub struct RequestOutcome {
    /// Seek here (file ms).
    pub seek_ms: Option<i64>,
    /// A rewind restored this segment (the frontend closes the window and
    /// shows the segment).
    pub rewound_to: Option<String>,
    /// The persistent scope changed and is to be saved.
    pub save_persistent: bool,
}

impl Shared {
    /// Apply a queued skip of `delta` ms at playback position `pos_ms`.
    /// Skips stay inside the current inter-choice span: backward ones clamp
    /// at the segment start; forward ones clamp at the next unopened choice
    /// window (or just before the segment end) and still apply the state
    /// writes of the moments they pass over. No skip while a choice is open
    /// or its window holds the position; short ones (250 ms or less) are
    /// dropped.
    fn skip(&mut self, bundle: &InteractiveBundle, pos_ms: i64, delta: i64, fired: &mut Fired) -> (r: RequestOutcome)
        requires
            old(self).skip_request_ms is None,
            old(self).rewind_request is None,
        ensures
            skip_post(*bundle, *old(self), pos_ms, delta, old(fired).ids@, r, *final(self), final(fired).ids@),
    {
        let none = RequestOutcome { seek_ms: None, rewound_to: None, save_persistent: false };
        if self.open.is_some() {
            return none;
        }
        let seg = match lookup(&bundle.manifest.segments, self.current_segment.as_str()) {
            Some(s) => s,
            None => {
                return none;
            },
        };
        let empty: Vec<Moment> = Vec::new();
        let ms: &Vec<Moment> = match lookup(&bundle.moments.moments_by_segment, self.current_segment.as_str()) {
            Some(v) => v,
            None => &empty,
        };
        let ghost f0 = fired.ids@;
        assert(ms@ == segment_moments(*bundle, self.current_segment@));
        // Dead while a choice window holds the position.
        let mut i: usize = 0;
        while i < ms.len()
            invariant
                i <= ms@.len(),
                f0 == fired.ids@,
                ms@ == segment_moments(*bundle, self.current_segment@),
                forall|k: int|
                    0 <= k < i ==> !(!f0.contains(k as usize) && is_choice_spec(#[trigger] ms@[k]) && (window_spec(ms@[k]) matches Some(w) && w.0 <= pos_ms && pos_ms < w.1)),
            decreases ms.len() - i,
        {
            if !fired.has(i) && moment_is_choice(&ms[i]) {
                if let Some((start, end)) = moment_window(&ms[i]) {
                    if pos_ms >= start && pos_ms < end {
                        proof {
                            assert(is_choice_spec(ms@[i as int]));
                            assert(skip_blocked(ms@, f0, pos_ms as int));
                        }
                        return RequestOutcome { seek_ms: None, rewound_to: None, save_persistent: false };
                    }
                }
            }
            i += 1;
        }
        if delta < 0 {
            let t0 = add_sat(pos_ms, delta);
            let t = if t0 > seg.start_time_ms {
                t0
            } else {
                seg.start_time_ms
            };
            let seek = if (t as i128) < (pos_ms as i128) - 250 {
                Some(t)
            } else {
                None
            };
            return RequestOutcome { seek_ms: seek, rewound_to: None, save_persistent: false };
        }
        let mut target = add_sat(pos_ms, delta);
        if let Some(end) = seg.end_time_ms {
            let lim = sub_sat(end, BOUNDARY_EPS_MS);
            if lim < target {
                target = lim;
            }
        }
        let ghost t1 = target;
        let mut k: usize = 0;
        while k < ms.len()
            invariant
                k <= ms@.len(),
                f0 == fired.ids@,
                target == clamp_to_choices(ms@, f0, pos_ms as int, t1 as int, k as int),
            decreases ms.len() - k,
        {
            if !fired.has(k) && moment_is_choice(&ms[k]) {
                if let Some((start, _)) = moment_window(&ms[k]) {
                    if start > pos_ms && start < target {
                        target = start;
                    }
                }
            }
            k += 1;
        }
        let mut save = false;
        if target > pos_ms {
            let ghost g0 = self.global@;
            let ghost p0 = self.persistent@;
            let ghost s0 = *self;
            let mut j: usize = 0;
            while j < ms.len()
                invariant
                    j <= ms@.len(),
                    target > pos_ms,
                    ({
                        let w = skip_writes(*bundle, g0, p0, ms@, f0, pos_ms as int, target as int, j as int);
                        &&& self.global@ == w.0
                        &&& self.persistent@ == w.1
                        &&& save == w.2
                    }),
                    *self == (Shared { global: self.global, persistent: self.persistent, ..s0 }),
                    forall|x: usize| #[trigger] fired.ids@.contains(x) == (f0.contains(x) || (x < j && skipped_over(ms@, f0, pos_ms as int, target as int, x as int))),
                decreases ms.len() - j,
            {
                let ghost fb = fired.ids@;
                let already = fired.has(j);
                if !already && !moment_is_choice(&ms[j]) {
                    if let Some((start, _)) = moment_window(&ms[j]) {
                        if start > pos_ms && start <= target {
                            fired.insert(j);
                            if self.moment_passes(bundle, &ms[j]) {
                                if let Some(imp) = &ms[j].impression_data {
                                    if self.apply_impression(imp) {
                                        save = true;
                                    }
                                }
                            }
                        }
                    }
                }
                proof {
                    assert(f0.contains(j as usize) == fb.contains(j as usize));
                }
                j += 1;
            }
        }
        let seek = if (target as i128) > (pos_ms as i128) + 250 {
            Some(target)
        } else {
            None
        };
        RequestOutcome { seek_ms: seek, rewound_to: None, save_persistent: save }
    }
}

/// Where a rewind to `snap` lands: a beat (2.5 s) before its window opened,
/// but not before the segment start.
pub open spec fn rewind_landing(file_ms: int, seg_start: int) -> int {
    max_i(sat_sub(file_ms, 2500), seg_start)
}

impl Shared {
    /// Apply a queued rewind or skip request at playback position `pos_ms`.
    ///
    /// A rewind restores its decision snapshot wholesale — both state
    /// scopes, the segment, the story clock, the path (cut back to the
    /// snapshot's length, at least 1) — clears the pending target, the open
    /// window and the fired moments, marks the snapshot as rewound to, and
    /// seeks a beat before the window so it presents again; the persistent
    /// scope is to be saved. A rewind to an unknown snapshot or segment does
    /// nothing but consume the requests. Otherwise a queued skip is applied
    /// (see `skip`).
    pub fn handle_requests(&mut self, bundle: &InteractiveBundle, pos_ms: i64, fired: &mut Fired) -> (r: RequestOutcome)
        ensures
            match old(self).rewind_request {
                Some(i) => {
                    let segs = bundle.manifest.segments@;
                    &&& final(self).rewind_request is None
                    &&& final(self).skip_request_ms is None
                    &&& if i < old(self).snapshots@.len() && find_key(segs, old(self).snapshots@[i as int].segment_id@) is Some {
                        let snap = old(self).snapshots@[i as int];
                        let seg = segs[find_key(segs, snap.segment_id@)->0].1;
                        &&& r.seek_ms == Some(rewind_landing(snap.file_ms as int, seg.start_time_ms as int) as i64)
                        &&& opt_str(r.rewound_to) == Some(snap.segment_id@)
                        &&& r.save_persistent
                        &&& final(self).global@ == snap.global@
                        &&& final(self).persistent@ == snap.persistent@
                        &&& final(self).pending_target is None
                        &&& final(self).current_segment@ == snap.segment_id@
                        &&& final(self).rewound_index == Some(i)
                        &&& final(self).open is None
                        &&& final(self).story_base_ms == sat_sub(snap.story_ms as int, max_i(sat_sub(snap.file_ms as int, seg.start_time_ms as int), 0))
                        &&& final(self).seg_start_ms == seg.start_time_ms
                        &&& final(self).seg_end_ms == seg.end_time_ms
                        &&& final(self).path@ == old(self).path@.take(min_i(old(self).path@.len() as int, max_i(snap.path_len as int, 1)))
                        &&& final(self).snapshots == old(self).snapshots
                        &&& final(self).metrics == old(self).metrics
                        &&& final(fired).ids@.len() == 0
                    } else {
                        &&& r.seek_ms is None && r.rewound_to is None && !r.save_persistent
                        &&& *final(self) == (Shared { rewind_request: None, skip_request_ms: None, ..*old(self) })
                        &&& final(fired).ids@ == old(fired).ids@
                    }
                },
                None => match old(self).skip_request_ms {
                    None => r.seek_ms is None && r.rewound_to is None && !r.save_persistent && *final(self) == *old(self)
                        && final(fired).ids@ == old(fired).ids@,
                    Some(d) => {
                        let cleared = Shared { skip_request_ms: None, ..*old(self) };
                        // The skip of `d` as `skip` states it, from the state with the request consumed.
                        skip_post(*bundle, cleared, pos_ms, d, old(fired).ids@, r, *final(self), final(fired).ids@)
                    },
                },
            },
    {
        if let Some(i) = self.rewind_request {
            self.rewind_request = None;
            self.skip_request_ms = None;
            if i >= self.snapshots.len() {
                return RequestOutcome { seek_ms: None, rewound_to: None, save_persistent: false };
            }
            let seg = match lookup(&bundle.manifest.segments, self.snapshots[i].segment_id.as_str()) {
                Some(s) => s,
                None => {
                    return RequestOutcome { seek_ms: None, rewound_to: None, save_persistent: false };
                },
            };
            let snap = &self.snapshots[i];
            let global = snap.global.deep_copy();
            let persistent = snap.persistent.deep_copy();
            let segment_id = snap.segment_id.clone();
            let back = sub_sat(snap.file_ms, seg.start_time_ms);
            let back = if back > 0 {
                back
            } else {
                0
            };
            let story_base = sub_sat(snap.story_ms, back);
            let landing = sub_sat(snap.file_ms, 2500);
            let landing = if landing > seg.start_time_ms {
                landing
            } else {
                seg.start_time_ms
            };
            let keep = if snap.path_len > 1 {
                snap.path_len
            } else {
                1
            };
            self.global = global;
            self.persistent = persistent;
            self.pending_target = None;
            self.current_segment = segment_id.clone();
            self.rewound_index = Some(i);
            self.open = None;
            self.story_base_ms = story_base;
            self.seg_start_ms = seg.start_time_ms;
            self.seg_end_ms = seg.end_time_ms;
            self.path.truncate(keep);
            fired.clear();
            return RequestOutcome { seek_ms: Some(landing), rewound_to: Some(segment_id), save_persistent: true };
        }
        match self.skip_request_ms {
            None => RequestOutcome { seek_ms: None, rewound_to: None, save_persistent: false },
            Some(d) => {
                self.skip_request_ms = None;
                self.skip(bundle, pos_ms, d, fired)
            },
        }
    }
}

/// Indices among the first `n` choices whose named precondition holds (a
/// choice without one is always shown).
pub open spec fn visible_upto(b: InteractiveBundle, g: Map<Seq<char>, Json>, p: Map<Seq<char>, Json>, cs: Seq<Choice>, n: int) -> Seq<int>
    decreases n,
{
    if n <= 0 || n > cs.len() {
        Seq::empty()
    } else {
        let prev = visible_upto(b, g, p, cs, n - 1);
        let shown = match cs[n - 1].precondition_id {
            Some(id) => precondition_spec(b, g, p, id@),
            None => true,
        };
        if shown {
            prev.push(n - 1)
        } else {
            prev
        }
    }
}

/// Position of raw index `raw` among the visible ones, else 0.
pub open spec fn default_position(vis: Seq<int>, raw: int) -> int
    decreases vis.len(),
{
    if vis.len() == 0 {
        0
    } else if vis.last() == raw {
        vis.len() - 1
    } else {
        default_position(vis.drop_last(), raw)
    }
}

/// The image fields a choice shows: its sprite's local path (looked up by
/// base name among `assets`) with the art's size and position, when the
/// art names a sprite the assets hold; otherwise none of them.
pub open spec fn image_of(assets: Seq<(String, String)>, c: Choice) -> (Option<Seq<char>>, Option<Seq<char>>, Option<Seq<char>>) {
    match art_spec(c) {
        Some((base, size, pos)) => match find_key(assets, base) {
            Some(k) => (Some(assets[k].1@), size, pos),
            None => (None, None, None),
        },
        None => (None, None, None),
    }
}

/// The view shown for choice `c`.
pub open spec fn view_of(assets: Seq<(String, String)>, c: Choice, v: ChoiceView) -> bool {
    &&& v.text@ == label_of_choice(c)
    &&& opt_str(v.sub_text) == opt_str(c.sub_text)
    &&& (opt_str(v.image_path), opt_str(v.image_size), opt_str(v.image_position)) == image_of(assets, c)
}

fn choice_view(assets: &[(String, String)], c: &Choice) -> (v: ChoiceView)
    ensures
        view_of(assets@, *c, v),
{
    let mut image_path: Option<String> = None;
    let mut image_size: Option<String> = None;
    let mut image_position: Option<String> = None;
    if let Some((base, size, position)) = choice_art(c) {
        if let Some(path) = lookup(assets, base.as_str()) {
            image_path = Some(path.clone());
            image_size = size;
            image_position = position;
        }
    }
    ChoiceView { text: choice_label(c), sub_text: c.sub_text.clone(), image_path, image_size, image_position }
}

pub open spec fn opt_json(o: Option<JsonValue>) -> Option<Json> {
    match o {
        Some(v) => Some(v@),
        None => None,
    }
}

/// The window that opening choice moment `m` over the state `(g, p)`
/// presents, when some choice is visible.
pub open spec fn opened_window(
    b: InteractiveBundle,
    g: Map<Seq<char>, Json>,
    p: Map<Seq<char>, Json>,
    assets: Seq<(String, String)>,
    m: Moment,
    segment_id: Seq<char>,
    pos: int,
    window_start: int,
    window_end: int,
    o: OpenChoice,
) -> bool {
    let cs: Seq<Choice> = match m.choices {
        Some(c) => c@,
        None => Seq::empty(),
    };
    let vis = visible_upto(b, g, p, cs, cs.len() as int);
    let raw: int = match m.default_choice_index {
        Some(d) => max_i(d as int, 0),
        None => 0,
    };
    &&& o.view.segment_id@ == segment_id
    &&& o.view.choices@.len() == vis.len()
    &&& o.targets@.len() == vis.len()
    &&& o.impressions@.len() == vis.len()
    &&& forall|j: int|
        0 <= j < vis.len() ==> {
            &&& view_of(assets, cs[vis[j]], #[trigger] o.view.choices@[j])
            &&& opt_str(o.targets@[j]) == target_spec(cs[vis[j]])
            &&& opt_json(o.impressions@[j]) == opt_json(cs[vis[j]].impression_data)
        }
    &&& o.view.default_index == default_position(vis, raw)
    &&& o.view.remaining_ms == sat_sub(window_end, pos)
    &&& o.view.total_ms == sat_sub(window_end, window_start)
    &&& opt_str(o.view.layout_type) == opt_str(m.layout_type)
    &&& o.view.selected_index is None
    &&& o.window_end_ms == window_end
}

proof fn lemma_visible_facts(b: InteractiveBundle, g: Map<Seq<char>, Json>, p: Map<Seq<char>, Json>, cs: Seq<Choice>, n: int)
    requires
        0 <= n <= cs.len(),
    ensures
        forall|j: int| 0 <= j < visible_upto(b, g, p, cs, n).len() ==> 0 <= #[trigger] visible_upto(b, g, p, cs, n)[j] < n,
        visible_upto(b, g, p, cs, n).len() <= n,
    decreases n,
{
    if n > 0 {
        lemma_visible_facts(b, g, p, cs, n - 1);
    }
}

impl Shared {
    /// Build the visible choice list of choice moment `m` (filtered by
    /// preconditions) and make it the live window, returning what the
    /// frontend is shown. When no choice is visible nothing opens.
    pub fn open_choice(
        &mut self,
        bundle: &InteractiveBundle,
        assets: &[(String, String)],
        m: &Moment,
        segment_id: &str,
        pos_ms: i64,
        window_start: i64,
        window_end: i64,
    ) -> (r: Option<ChoiceOpen>)
        ensures
            r matches Some(v) ==> (final(self).open matches Some(o) && same_open(v, o.view) && v.remaining_ms == o.view.remaining_ms),
            r is None ==> *final(self) == *old(self),
            r is Some ==> (final(self).open matches Some(o) && opened_window(*bundle, old(self).global@, old(self).persistent@, assets@, *m, segment_id@, pos_ms as int, window_start as int, window_end as int, o)
                && *final(self) == (Shared { open: final(self).open, ..*old(self) })),
            (r is None) == (visible_upto(*bundle, old(self).global@, old(self).persistent@, match m.choices { Some(c) => c@, None => Seq::empty() }, match m.choices { Some(c) => c@.len() as int, None => 0 }).len() == 0),
    {
        let empty: Vec<Choice> = Vec::new();
        let all: &Vec<Choice> = match &m.choices {
            Some(c) => c,
            None => &empty,
        };
        let ghost cs = all@;
        let ghost g = self.global@;
        let ghost p = self.persistent@;
        let raw_default: i64 = match m.default_choice_index {
            Some(d) => if d > 0 {
                d
            } else {
                0
            },
            None => 0,
        };
        let mut views: Vec<ChoiceView> = Vec::new();
        let mut targets: Vec<Option<String>> = Vec::new();
        let mut impressions: Vec<Option<JsonValue>> = Vec::new();
        let mut default_index: usize = 0;
        let mut i: usize = 0;
        while i < all.len()
            invariant
                i <= all@.len(),
                cs == all@,
                g == self.global@,
                p == self.persistent@,
                raw_default >= 0,
                views@.len() == visible_upto(*bundle, g, p, cs, i as int).len(),
                targets@.len() == views@.len(),
                impressions@.len() == views@.len(),
                forall|j: int|
                    0 <= j < views@.len() ==> {
                        let c = cs[visible_upto(*bundle, g, p, cs, i as int)[j]];
                        &&& view_of(assets@, c, #[trigger] views@[j])
                        &&& opt_str(targets@[j]) == target_spec(c)
                        &&& opt_json(impressions@[j]) == opt_json(c.impression_data)
                    },
                default_index == default_position(visible_upto(*bundle, g, p, cs, i as int), raw_default as int),
            decreases all.len() - i,
        {
            let c = &all[i];
            let shown = match &c.precondition_id {
                Some(pid) => self.precondition_by_id(bundle, pid.as_str()),
                None => true,
            };
            proof {
                lemma_visible_facts(*bundle, g, p, cs, i as int);
            }
            if shown {
                if (i as u64) == (raw_default as u64) {
                    default_index = views.len();
                }
                views.push(choice_view(assets, c));
                let t = choice_target(c);
                targets.push(t);
                let imp = match &c.impression_data {
                    Some(v) => Some(v.deep_copy()),
                    None => None,
                };
                impressions.push(imp);
                proof {
                    let vis = visible_upto(*bundle, g, p, cs, i + 1);
                    assert(vis.drop_last() == visible_upto(*bundle, g, p, cs, i as int));
                    assert(vis.last() == i);
                }
            }
            i += 1;
        }
        if views.len() == 0 {
            return None;
        }
        let view = ChoiceOpen {
            segment_id: segment_id.to_string(),
            choices: views,
            default_index,
            remaining_ms: sub_sat(window_end, pos_ms),
            total_ms: sub_sat(window_end, window_start),
            layout_type: m.layout_type.clone(),
            selected_index: None,
        };
        let shown = view.copy_with_remaining(view.remaining_ms);
        self.open = Some(OpenChoice { view, targets, impressions, window_end_ms: window_end });
        Some(shown)
    }
}

impl Shared {
    /// The engine's view of the session for the stats panel: segment
    /// timing from the session's own bookkeeping, the story time when the
    /// playback position is known, and how many state keys hold a truthy
    /// value in each scope.
    pub fn debug(&self, pos_ms: Option<i64>) -> (r: InteractiveDebug)
        ensures
            r.segment_id@ == self.current_segment@,
            r.segment_start_ms == self.seg_start_ms,
            r.segment_end_ms == self.seg_end_ms,
            r.story_ms == match pos_ms {
                Some(p) => Some(story_at(self.story_base_ms as int, p as int, self.seg_start_ms as int) as i64),
                None => None::<i64>,
            },
            opt_str(r.pending_target) == opt_str(self.pending_target),
            r.choice_open == self.open is Some,
            r.snapshot_count == self.snapshots@.len(),
            r.path_len == self.path@.len(),
            r.persistent_set == truthy_keys(self.persistent@).len(),
            r.global_set == truthy_keys(self.global@).len(),
            r.metrics.jumps == self.metrics.jumps,
            r.metrics.seek_jumps == self.metrics.seek_jumps,
            opt_str(r.metrics.last_from) == opt_str(self.metrics.last_from),
            opt_str(r.metrics.last_to) == opt_str(self.metrics.last_to),
            r.metrics.last_latency_ms == self.metrics.last_latency_ms,
    {
        let story_ms = match pos_ms {
            Some(p) => Some(story_ms_at(self.story_base_ms, p, self.seg_start_ms)),
            None => None,
        };
        InteractiveDebug {
            segment_id: self.current_segment.clone(),
            segment_start_ms: self.seg_start_ms,
            segment_end_ms: self.seg_end_ms,
            story_ms,
            pending_target: match &self.pending_target {
                Some(t) => Some(t.clone()),
                None => None,
            },
            choice_open: self.open.is_some(),
            snapshot_count: self.snapshots.len(),
            path_len: self.path.len(),
            persistent_set: self.persistent.truthy_count(),
            global_set: self.global.truthy_count(),
            metrics: self.metrics.copy(),
        }
    }
}

} // verus!
