//! The decisions of the playback driver, one tick at a time.
//!
//! The driver polls the player's position. Each tick it fires the moments
//! whose window playback has entered, closes an expired choice window
//! (applying the default choice), pre-arms the upcoming cut shortly before
//! the segment end, and at the boundary resolves the next segment and jumps
//! unless it is contiguous. The caller performs what the phases ask for
//! (events for the frontend, saves, player commands) and runs them in that
//! order under the session lock.

use vstd::prelude::*;
use crate::choice::{choice_label, is_choice_spec, label_of_choice, moment_is_choice, moment_window, window_spec};
use crate::engine::{
    OpenChoice, add_sat, max_i, min_i, opened_window, same_open, sat_add, sat_sub, segment_moments, story_at, story_ms_at, strs,
    sub_sat, ChoiceOpen, ChoiceSnapshot, Fired, BOUNDARY_EPS_MS,
};
use crate::interactive::{InteractiveBundle, Moment};
use crate::json::Json;
use crate::keyed::{find_key, lookup};
use crate::session::{impression_writes, moment_passes_spec, opt_str, peek_spec, Shared};
use crate::state::{any_change, insert_all};
use crate::text::{chars_of, chars_eq, str_eq};

verus! {

/// A jump target starting within this of the current end is contiguous:
/// the file just keeps playing.
pub const CONTIGUOUS_MS: i64 = 40;

/// How far ahead of the boundary the upcoming jump is resolved.
pub const PREARM_MS: i64 = 450;

/// Forward non-contiguous jumps seek this early, so the seek completes
/// before any frame of the physically next segment can show.
pub const FORWARD_CUT_MARGIN_MS: i64 = 90;

/// What the caller is asked to do: tell the frontend, or save.
pub enum Action {
    /// A choice window opened.
    ChoiceOpened(ChoiceOpen),
    /// An inline tutorial is shown.
    Notification { header_text: Option<String>, body_text: Option<String>, remaining_ms: i64 },
    /// The open window's countdown.
    ChoiceTick { remaining_ms: i64 },
    /// The window closed with this selection (by timeout when `timed_out`).
    ChoiceClosed { selected_index: Option<usize>, timed_out: bool },
    /// The persistent scope changed: save it.
    SavePersistent,
    /// Checkpoint the session for resume at this position.
    SaveResume { pos_ms: i64 },
    /// Playback entered this segment.
    Segment { segment_id: String },
    /// The story reached an ending: the title counts as watched and the
    /// resume point is forgotten.
    Ended,
    /// The story clock.
    Clock { story_ms: i64 },
}

/// The driver's own state between ticks.
pub struct Driver {
    /// Moments fired during the current segment visit.
    pub fired: Fired,
    /// The pre-resolved upcoming transition: (next segment, its start ms).
    pub armed: Option<(String, i64)>,
    /// The player holds loop points for that transition.
    pub loop_live: bool,
    /// The ending was announced.
    pub ended_emitted: bool,
}

impl Driver {
    pub fn new() -> (d: Driver)
        ensures
            d.fired.ids@.len() == 0,
            d.armed is None,
            !d.loop_live,
            !d.ended_emitted,
    {
        Driver { fired: Fired::new(), armed: None, loop_live: false, ended_emitted: false }
    }
}

/// Moment `i` fires at `pos`: it has not fired this visit and its window
/// holds `pos`.
pub open spec fn fires_at(ms: Seq<Moment>, fired: Seq<usize>, i: int, pos: int) -> bool {
    &&& 0 <= i < ms.len()
    &&& !fired.contains(i as usize)
    &&& window_spec(ms[i]) matches Some(w) && w.0 <= pos < w.1
}

/// The labels of a moment's choices, as the timeline shows them.
pub open spec fn choice_labels(m: Moment) -> Seq<Seq<char>> {
    match m.choices {
        Some(cs) => cs@.map_values(|c| label_of_choice(c)),
        None => Seq::empty(),
    }
}

/// Snapshot `snap` records decision moment `m` opening at `file_ms` on
/// segment `cur`, with the state, story time and path length of `s`.
pub open spec fn snapshot_of(snap: ChoiceSnapshot, s: Shared, cur: Seq<char>, m: Moment, story_ms: int, file_ms: int) -> bool {
    &&& snap.segment_id@ == cur
    &&& snap.story_ms == story_ms
    &&& snap.global@ == s.global@
    &&& snap.persistent@ == s.persistent@
    &&& snap.selected_index is None
    &&& strs(snap.choice_texts@) == choice_labels(m)
    &&& snap.file_ms == file_ms
    &&& snap.path_len == s.path@.len()
}

/// The snapshots kept when a new decision is taken: a pending rewind cuts
/// the abandoned future first.
pub open spec fn kept_snapshots(s: Shared) -> Seq<ChoiceSnapshot> {
    match s.rewound_index {
        Some(idx) => if idx < s.snapshots@.len() {
            s.snapshots@.take(idx as int)
        } else {
            s.snapshots@
        },
        None => s.snapshots@,
    }
}

fn labels_of(m: &Moment) -> (r: Vec<String>)
    ensures
        strs(r@) == choice_labels(*m),
{
    let mut out: Vec<String> = Vec::new();
    match &m.choices {
        Some(cs) => {
            let mut i: usize = 0;
            while i < cs.len()
                invariant
                    i <= cs@.len(),
                    out@.len() == i,
                    forall|k: int| 0 <= k < i ==> #[trigger] out@[k]@ == label_of_choice(cs@[k]),
                decreases cs.len() - i,
            {
                let l = choice_label(&cs[i]);
                out.push(l);
                i += 1;
            }
            assert(strs(out@) =~= cs@.map_values(|c| label_of_choice(c)));
        },
        None => {
            assert(strs(out@) =~= Seq::empty());
        },
    }
    out
}

/// The state writes a moment's impression makes to scope `scope`.
pub open spec fn moment_writes(m: Moment, scope: Seq<char>) -> Seq<(Seq<char>, Json)> {
    match m.impression_data {
        Some(v) => impression_writes(v@, scope),
        None => Seq::empty(),
    }
}

/// An inline tutorial moment.
pub open spec fn is_tutorial(m: Moment) -> bool {
    m.kind matches Some(k) && k@ == "notification:inlineTutorial"@
}

/// The state a fired, passing moment `m` leaves (before any window opens):
/// a decision snapshot first when it is a choice, then its state writes.
pub open spec fn fired_state(s0: Shared, s1: Shared, cur: Seq<char>, m: Moment, story_ms: int, file_ms: int) -> bool {
    let choice = is_choice_spec(m);
    let kept = kept_snapshots(s0);
    &&& if choice {
        &&& s1.snapshots@.len() == kept.len() + 1
        &&& s1.snapshots@.take(kept.len() as int) == kept
        &&& snapshot_of(s1.snapshots@.last(), s0, cur, m, story_ms, file_ms)
        &&& s1.rewound_index is None
    } else {
        &&& s1.snapshots == s0.snapshots
        &&& s1.rewound_index == s0.rewound_index
    }
    &&& s1.global@ == insert_all(s0.global@, moment_writes(m, "global"@))
    &&& s1.persistent@ == insert_all(s0.persistent@, moment_writes(m, "persistent"@))
}

/// What firing moment `i` of the current segment at `pos` does to the
/// shared state `s0` (giving `s1`) and which actions it asks for, where
/// `fires` tells whether the moment is due (see `fires_at`). A due moment
/// whose preconditions hold takes a decision snapshot (for a choice),
/// applies its state writes (asking for a save when the persistent scope
/// changed), then opens its choice window or shows its tutorial.
pub open spec fn fire_step(
    bundle: InteractiveBundle,
    assets: Seq<(String, String)>,
    fires: bool,
    s0: Shared,
    i: int,
    pos: int,
    acts: Seq<Action>,
    s1: Shared,
) -> bool {
    let cur = s0.current_segment@;
    let ms = segment_moments(bundle, cur);
    let m = ms[i];
    let segs = bundle.manifest.segments@;
    let seg = segs[find_key(segs, cur)->0].1;
    if !fires {
        s1 == s0 && acts.len() == 0
    } else {
        let w = window_spec(m)->0;
        let passes = moment_passes_spec(bundle, s0.global@, s0.persistent@, m);
        let changed = any_change(s0.persistent@, moment_writes(m, "persistent"@));
        let n_save: int = if changed { 1 } else { 0 };
        if !passes {
            s1 == s0 && acts.len() == 0
        } else {
            &&& s1 == (Shared {
                global: s1.global,
                persistent: s1.persistent,
                snapshots: s1.snapshots,
                rewound_index: s1.rewound_index,
                open: s1.open,
                ..s0
            })
            &&& fired_state(s0, s1, cur, m, story_at(s0.story_base_ms as int, pos, seg.start_time_ms as int), w.0 as int)
            &&& (changed ==> acts[0] is SavePersistent)
            &&& if is_choice_spec(m) {
                let cs: Seq<crate::interactive::Choice> = match m.choices {
                    Some(c) => c@,
                    None => Seq::empty(),
                };
                let opened = crate::engine::visible_upto(bundle, s1.global@, s1.persistent@, cs, cs.len() as int).len() > 0;
                &&& !opened ==> s1.open == s0.open
                &&& acts.len() == n_save + if opened { 1int } else { 0 }
                &&& opened ==> s1.open is Some && opened_window(bundle, s1.global@, s1.persistent@, assets, m, cur, pos, w.0 as int, w.1 as int, s1.open->0)
                &&& opened ==> (acts[n_save] matches Action::ChoiceOpened(v) && same_open(v, s1.open->0.view) && v.remaining_ms == s1.open->0.view.remaining_ms)
            } else {
                &&& s1.open == s0.open
                &&& acts.len() == n_save + if is_tutorial(m) { 1int } else { 0 }
                &&& is_tutorial(m) ==> (acts[n_save] matches Action::Notification { header_text, body_text, remaining_ms }
                    && opt_str(header_text) == opt_str(m.header_text) && opt_str(body_text) == opt_str(m.body_text)
                    && remaining_ms == sat_sub(w.1 as int, pos))
            }
        }
    }
}

/// Firing the first `chunks.len()` moments `ms` of the current segment in
/// order, each due when `fires_at` holds against the fired set `fired`
/// taken before the first: `states[k]` is the shared state before moment
/// `k`, `states[k + 1]` the one after it, and `chunks[k]` the actions it
/// asks for.
pub open spec fn fire_run(
    bundle: InteractiveBundle,
    assets: Seq<(String, String)>,
    ms: Seq<Moment>,
    fired: Seq<usize>,
    pos: int,
    states: Seq<Shared>,
    chunks: Seq<Seq<Action>>,
) -> bool {
    &&& states.len() == chunks.len() + 1
    &&& forall|k: int| #![trigger chunks[k]] 0 <= k < chunks.len() ==> fire_step(bundle, assets,
        fires_at(ms, fired, k, pos), states[k], k, pos, chunks[k], states[k + 1])
}

impl Driver {
    /// Fire moment `i` of the current segment at position `pos_ms`, when its
    /// window holds the position and it has not fired this visit. A fired
    /// moment whose preconditions hold takes a decision snapshot (for a
    /// choice), applies its state writes, then opens its choice window or
    /// shows its tutorial.
    pub fn fire_moment(&mut self, sh: &mut Shared, bundle: &InteractiveBundle, assets: &[(String, String)], i: usize, pos_ms: i64) -> (acts: Vec<Action>)
        requires
            i < segment_moments(*bundle, old(sh).current_segment@).len(),
            find_key(bundle.manifest.segments@, old(sh).current_segment@) is Some,
        ensures
            fire_step(*bundle, assets@, fires_at(segment_moments(*bundle, old(sh).current_segment@), old(self).fired.ids@, i as int, pos_ms as int),
                *old(sh), i as int, pos_ms as int, acts@, *final(sh)),
            !fires_at(segment_moments(*bundle, old(sh).current_segment@), old(self).fired.ids@, i as int, pos_ms as int)
                ==> final(self).fired.ids@ == old(self).fired.ids@,
            fires_at(segment_moments(*bundle, old(sh).current_segment@), old(self).fired.ids@, i as int, pos_ms as int)
                ==> forall|j: usize| #[trigger] final(self).fired.ids@.contains(j) == (old(self).fired.ids@.contains(j) || j == i),
            final(self).armed == old(self).armed,
            final(self).loop_live == old(self).loop_live,
            final(self).ended_emitted == old(self).ended_emitted,
    {
        let mut acts: Vec<Action> = Vec::new();
        let seg_start = match lookup(&bundle.manifest.segments, sh.current_segment.as_str()) {
            Some(seg) => seg.start_time_ms,
            None => {
                return acts;
            },
        };
        let ms = match lookup(&bundle.moments.moments_by_segment, sh.current_segment.as_str()) {
            Some(ms) => ms,
            None => {
                return acts;
            },
        };
        let m = &ms[i];
        if self.fired.has(i) {
            return acts;
        }
        let (start, end) = match moment_window(m) {
            Some(w) => w,
            None => {
                return acts;
            },
        };
        if pos_ms < start || pos_ms >= end {
            return acts;
        }
        self.fired.insert(i);
        if !sh.moment_passes(bundle, m) {
            return acts;
        }
        let choice = moment_is_choice(m);
        let ghost s_orig = *sh;
        if choice {
            if let Some(idx) = sh.rewound_index {
                sh.rewound_index = None;
                sh.snapshots.truncate(idx);
            }
            assert(sh.snapshots@ =~= kept_snapshots(s_orig));
            let snap = ChoiceSnapshot {
                segment_id: sh.current_segment.clone(),
                story_ms: story_ms_at(sh.story_base_ms, pos_ms, seg_start),
                global: sh.global.deep_copy(),
                persistent: sh.persistent.deep_copy(),
                selected_index: None,
                choice_texts: labels_of(m),
                file_ms: start,
                path_len: sh.path.len(),
            };
            let ghost before = sh.snapshots@;
            sh.snapshots.push(snap);
            proof {
                assert(sh.snapshots@.take(before.len() as int) =~= before);
            }
        }
        let ghost s_mid = *sh;
        match &m.impression_data {
            Some(imp) => {
                if sh.apply_impression(imp) {
                    acts.push(Action::SavePersistent);
                }
            },
            None => {},
        }
        if choice {
            let cur = sh.current_segment.clone();
            match sh.open_choice(bundle, assets, m, cur.as_str(), pos_ms, start, end) {
                Some(v) => {
                    acts.push(Action::ChoiceOpened(v));
                },
                None => {},
            }
        } else {
            let tutorial = match &m.kind {
                Some(k) => str_eq(k.as_str(), "notification:inlineTutorial"),
                None => false,
            };
            if tutorial {
                acts.push(
                    Action::Notification {
                        header_text: m.header_text.clone(),
                        body_text: m.body_text.clone(),
                        remaining_ms: sub_sat(end, pos_ms),
                    },
                );
            }
        }
        acts
    }
}

pub open spec fn abs_i(v: int) -> int {
    if v < 0 {
        -v
    } else {
        v
    }
}

fn abs_diff(a: i64, b: i64) -> (r: i128)
    ensures
        r == abs_i(a - b),
{
    let d = (a as i128) - (b as i128);
    if d < 0 {
        -d
    } else {
        d
    }
}

/// Where the expired window's selection stands: the viewer's pick, else the
/// default choice (clamped to the list).
pub open spec fn closing_selection(o: crate::engine::OpenChoice) -> usize {
    match o.view.selected_index {
        Some(i) => i,
        None => {
            let n = o.view.choices@.len();
            let last: int = if n > 0 { n - 1 } else { 0 };
            min_i(o.view.default_index as int, last) as usize
        },
    }
}

impl Driver {
    /// Count down or close the open choice window at `pos_ms`. An expired
    /// window closes: without a pick the default choice is taken, with its
    /// state writes and jump target; the latest decision snapshot records
    /// the selection, and the session is checkpointed. While open, a
    /// countdown goes out when `tick_due`.
    pub fn close_window(&mut self, sh: &mut Shared, pos_ms: i64, tick_due: bool) -> (acts: Vec<Action>)
        ensures
            *final(self) == *old(self),
            match old(sh).open {
                None => *final(sh) == *old(sh) && acts@.len() == 0,
                Some(o) => if pos_ms < o.window_end_ms {
                    &&& *final(sh) == *old(sh)
                    &&& acts@.len() == if tick_due { 1int } else { 0 }
                    &&& tick_due ==> acts@[0] == Action::ChoiceTick { remaining_ms: sat_sub(o.window_end_ms as int, pos_ms as int) as i64 }
                } else {
                    let s0 = *old(sh);
                    let s1 = *final(sh);
                    let timed_out = o.view.selected_index is None;
                    let idx = closing_selection(o);
                    let imp: Option<crate::json::JsonValue> = if timed_out && idx < o.impressions@.len() {
                        o.impressions@[idx as int]
                    } else {
                        None
                    };
                    let wg = match imp {
                        Some(v) => impression_writes(v@, "global"@),
                        None => Seq::empty(),
                    };
                    let wp = match imp {
                        Some(v) => impression_writes(v@, "persistent"@),
                        None => Seq::empty(),
                    };
                    let target: Option<String> = if timed_out && idx < o.targets@.len() {
                        o.targets@[idx as int]
                    } else {
                        None
                    };
                    let changed = any_change(s0.persistent@, wp);
                    let n_save: int = if changed { 1 } else { 0 };
                    let snaps = s0.snapshots@;
                    &&& s1.open is None
                    &&& s1.global@ == insert_all(s0.global@, wg)
                    &&& s1.persistent@ == insert_all(s0.persistent@, wp)
                    &&& opt_str(s1.pending_target) == match target {
                        Some(t) => Some(t@),
                        None => opt_str(s0.pending_target),
                    }
                    &&& if snaps.len() > 0 && snaps.last().selected_index is None {
                        &&& s1.snapshots@.len() == snaps.len()
                        &&& s1.snapshots@.drop_last() == snaps.drop_last()
                        &&& s1.snapshots@.last() == (ChoiceSnapshot { selected_index: Some(idx), ..snaps.last() })
                    } else {
                        s1.snapshots == s0.snapshots
                    }
                    &&& s1 == (Shared {
                        open: s1.open,
                        global: s1.global,
                        persistent: s1.persistent,
                        pending_target: s1.pending_target,
                        snapshots: s1.snapshots,
                        ..s0
                    })
                    &&& acts@.len() == n_save + 2
                    &&& changed ==> acts@[0] is SavePersistent
                    &&& acts@[n_save] == Action::SaveResume { pos_ms }
                    &&& acts@[n_save + 1] == Action::ChoiceClosed { selected_index: Some(idx), timed_out }
                },
            },
    {
        let mut acts: Vec<Action> = Vec::new();
        let (end, selected, n) = match &sh.open {
            None => {
                return acts;
            },
            Some(o) => (o.window_end_ms, o.view.selected_index, o.view.choices.len()),
        };
        if pos_ms < end {
            if tick_due {
                acts.push(Action::ChoiceTick { remaining_ms: sub_sat(end, pos_ms) });
            }
            return acts;
        }
        let timed_out = selected.is_none();
        let idx: usize = match selected {
            Some(i) => i,
            None => {
                let last = if n > 0 {
                    n - 1
                } else {
                    0
                };
                let d = sh.open.as_ref().unwrap().view.default_index;
                if d < last {
                    d
                } else {
                    last
                }
            },
        };
        let open = sh.open.take().unwrap();
        let ghost s_taken = *sh;
        if timed_out {
            let imp = if idx < open.impressions.len() {
                match &open.impressions[idx] {
                    Some(v) => Some(v.deep_copy()),
                    None => None,
                }
            } else {
                None
            };
            match imp {
                Some(v) => {
                    if sh.apply_impression(&v) {
                        acts.push(Action::SavePersistent);
                    }
                },
                None => {},
            }
            let target = if idx < open.targets.len() {
                match &open.targets[idx] {
                    Some(t) => Some(t.clone()),
                    None => None,
                }
            } else {
                None
            };
            if let Some(t) = target {
                sh.pending_target = Some(t);
            }
        }
        let k = sh.snapshots.len();
        if k > 0 && sh.snapshots[k - 1].selected_index.is_none() {
            let ghost before = sh.snapshots@;
            let mut last = sh.snapshots.pop().unwrap();
            last.selected_index = Some(idx);
            sh.snapshots.push(last);
            proof {
                assert(sh.snapshots@.drop_last() =~= before.drop_last());
            }
        }
        acts.push(Action::SaveResume { pos_ms });
        acts.push(Action::ChoiceClosed { selected_index: Some(idx), timed_out });
        acts
    }
}

/// Player loop points to set or drop.
pub struct LoopChange {
    /// Set loop points (A, B) in file ms: the player cuts from B to A.
    pub set_loop: Option<(i64, i64)>,
    /// Drop the live loop points.
    pub drop_loop: bool,
}

/// Where segment `name` starts, or `fallback` for an unknown one.
pub open spec fn start_or(b: InteractiveBundle, name: Seq<char>, fallback: int) -> int {
    match find_key(b.manifest.segments@, name) {
        Some(k) => b.manifest.segments@[k].1.start_time_ms as int,
        None => fallback,
    }
}

fn start_of(bundle: &InteractiveBundle, name: &str, fallback: i64) -> (r: i64)
    ensures
        r == start_or(*bundle, name@, fallback as int),
{
    match lookup(&bundle.manifest.segments, name) {
        Some(seg) => seg.start_time_ms,
        None => fallback,
    }
}

/// The segment that `sh` is in.
pub open spec fn current_seg(b: InteractiveBundle, sh: Shared) -> crate::interactive::ManifestSegment {
    b.manifest.segments@[find_key(b.manifest.segments@, sh.current_segment@)->0].1
}

impl Driver {
    /// Pre-arm the upcoming cut: within `PREARM_MS` of the segment end (and
    /// before the last `BOUNDARY_EPS_MS`), resolve where the boundary will
    /// go. A new backward, non-contiguous target gets loop points (A = its
    /// start, B = the end) so the player cuts frame-exactly on its own; any
    /// other new target drops live loop points; no target disarms.
    pub fn prearm(&mut self, sh: &Shared, bundle: &InteractiveBundle, pos_ms: i64) -> (r: LoopChange)
        requires
            find_key(bundle.manifest.segments@, sh.current_segment@) is Some,
        ensures
            final(self).fired == old(self).fired,
            final(self).loop_live == old(self).loop_live,
            final(self).ended_emitted == old(self).ended_emitted,
            ({
                let seg = current_seg(*bundle, *sh);
                let pos = pos_ms as int;
                let in_window = seg.end_time_ms matches Some(e) && sat_sub(e as int, PREARM_MS as int) <= pos
                    && pos < sat_sub(e as int, BOUNDARY_EPS_MS as int);
                if !in_window {
                    r.set_loop is None && !r.drop_loop && final(self).armed == old(self).armed
                } else {
                    let end = seg.end_time_ms->0 as int;
                    match peek_spec(*bundle, sh.global@, sh.persistent@, opt_str(sh.pending_target), sh.current_segment@) {
                        Some(next) => {
                            let t = start_or(*bundle, next, end);
                            let stale = match old(self).armed {
                                Some(a) => a.0@ != next,
                                None => true,
                            };
                            if stale {
                                let contiguous = abs_i(t - end) <= CONTIGUOUS_MS;
                                &&& final(self).armed matches Some(a) && a.0@ == next && a.1 == t
                                &&& r.set_loop == if !contiguous && t < end { Some((t as i64, end as i64)) } else { None }
                                &&& r.drop_loop == (!(!contiguous && t < end) && old(self).loop_live)
                            } else {
                                r.set_loop is None && !r.drop_loop && final(self).armed == old(self).armed
                            }
                        },
                        None => final(self).armed is None && r.set_loop is None && r.drop_loop == old(self).loop_live,
                    }
                }
            }),
    {
        let seg = lookup(&bundle.manifest.segments, sh.current_segment.as_str()).unwrap();
        let none = LoopChange { set_loop: None, drop_loop: false };
        let end = match seg.end_time_ms {
            Some(e) => e,
            None => {
                return none;
            },
        };
        if !(pos_ms >= sub_sat(end, PREARM_MS) && pos_ms < sub_sat(end, BOUNDARY_EPS_MS)) {
            return none;
        }
        match sh.resolve_peek(bundle) {
            Some(next) => {
                let t = start_of(bundle, next.as_str(), end);
                let stale = match &self.armed {
                    Some(a) => !str_eq(a.0.as_str(), next.as_str()),
                    None => true,
                };
                if stale {
                    let contiguous = abs_diff(t, end) <= CONTIGUOUS_MS as i128;
                    let mut r = LoopChange { set_loop: None, drop_loop: false };
                    if !contiguous && t < end {
                        r.set_loop = Some((t, end));
                    } else if self.loop_live {
                        r.drop_loop = true;
                    }
                    self.armed = Some((next, t));
                    r
                } else {
                    none
                }
            },
            None => {
                self.armed = None;
                LoopChange { set_loop: None, drop_loop: self.loop_live }
            },
        }
    }
}

/// What crossing a segment boundary asks of the player.
pub struct Crossing {
    /// Seek here (a forward or unarmed jump).
    pub seek_to: Option<i64>,
    /// The jump being made, for the latency metrics: (from, to).
    pub jump: Option<(String, String)>,
    /// The armed loop makes this cut: wait for the player to land here.
    pub settle_to: Option<i64>,
    /// Drop the live loop points.
    pub drop_loop: bool,
    pub actions: Vec<Action>,
}

/// Whether the boundary is reached at `pos`: a pre-armed loop already cut
/// back (the position left the segment near the target start), or the
/// position passed the trigger point (early by `FORWARD_CUT_MARGIN_MS` for
/// a pending forward jump, by `BOUNDARY_EPS_MS` otherwise).
pub open spec fn boundary_reached(seg: crate::interactive::ManifestSegment, end: int, armed: Option<(String, i64)>, loop_live: bool, pos: int) -> bool {
    let loop_jumped = loop_live && match armed {
        Some(a) => abs_i(pos - a.1) < 1500 && (pos < seg.start_time_ms || pos >= end),
        None => false,
    };
    let forward_pending = !loop_live && match armed {
        Some(a) => abs_i(a.1 - end) > CONTIGUOUS_MS,
        None => false,
    };
    let trigger = if forward_pending {
        sat_sub(end, FORWARD_CUT_MARGIN_MS as int)
    } else {
        sat_sub(end, BOUNDARY_EPS_MS as int)
    };
    pos >= trigger || loop_jumped
}

impl Driver {
    /// At the segment boundary, move to the resolved next segment: count the
    /// jump, seek (or let the armed loop cut) when it is not contiguous,
    /// advance the story clock, extend the path, close any window, clear
    /// the fired moments, and checkpoint — or announce the ending when the
    /// new segment is terminal or nothing follows.
    pub fn cross_boundary(&mut self, sh: &mut Shared, bundle: &InteractiveBundle, pos_ms: i64) -> (r: Crossing)
        requires
            find_key(bundle.manifest.segments@, old(sh).current_segment@) is Some,
        ensures
            ({
                let s0 = *old(sh);
                let s1 = *final(sh);
                let seg = current_seg(*bundle, s0);
                let pos = pos_ms as int;
                let reached = seg.end_time_ms matches Some(e) && boundary_reached(seg, e as int, old(self).armed, old(self).loop_live, pos);
                if !reached {
                    s1 == s0 && *final(self) == *old(self) && r.seek_to is None && r.jump is None
                        && r.settle_to is None && !r.drop_loop && r.actions@.len() == 0
                } else {
                    let end = seg.end_time_ms->0 as int;
                    let cur = s0.current_segment@;
                    match peek_spec(*bundle, s0.global@, s0.persistent@, opt_str(s0.pending_target), cur) {
                        None => {
                            &&& s1 == (Shared { pending_target: None, ..s0 })
                            &&& final(self).armed is None
                            &&& final(self).fired == old(self).fired
                            &&& final(self).loop_live == old(self).loop_live
                            &&& final(self).ended_emitted
                            &&& r.drop_loop == old(self).loop_live
                            &&& r.seek_to is None && r.jump is None && r.settle_to is None
                            &&& r.actions@ == if old(self).ended_emitted { Seq::<Action>::empty() } else { seq![Action::Ended] }
                        },
                        Some(next) => {
                            let t = start_or(*bundle, next, end);
                            let far = abs_i(t - end) > CONTIGUOUS_MS;
                            let pre_armed = old(self).loop_live && (old(self).armed matches Some(a) && a.0@ == next);
                            let next_known = find_key(bundle.manifest.segments@, next) is Some;
                            let terminal = next_known && bundle.manifest.segments@[find_key(bundle.manifest.segments@, next)->0].1.end_time_ms is None;
                            &&& s1.current_segment@ == next
                            &&& s1.pending_target is None
                            &&& s1.open is None
                            &&& s1.path@.len() == s0.path@.len() + 1
                            &&& s1.path@.drop_last() == s0.path@
                            &&& s1.path@.last()@ == next
                            &&& s1.story_base_ms == sat_add(s0.story_base_ms as int, sat_sub(end, seg.start_time_ms as int))
                            &&& next_known ==> s1.seg_start_ms == t && s1.seg_end_ms == bundle.manifest.segments@[find_key(bundle.manifest.segments@, next)->0].1.end_time_ms
                            &&& !next_known ==> s1.seg_start_ms == s0.seg_start_ms && s1.seg_end_ms == s0.seg_end_ms
                            &&& s1.metrics.jumps == (s0.metrics.jumps + 1) % 0x1_0000_0000
                            &&& s1.metrics.seek_jumps == if far { (s0.metrics.seek_jumps + 1) % 0x1_0000_0000 } else { s0.metrics.seek_jumps as int }
                            &&& if far && pre_armed {
                                &&& opt_str(s1.metrics.last_from) == Some(cur)
                                &&& opt_str(s1.metrics.last_to) == Some(next)
                                &&& s1.metrics.last_latency_ms == Some(0i64)
                                &&& r.settle_to == Some(t as i64) && r.seek_to is None && r.jump is None
                            } else {
                                &&& s1.metrics.last_from == s0.metrics.last_from
                                &&& s1.metrics.last_to == s0.metrics.last_to
                                &&& s1.metrics.last_latency_ms == s0.metrics.last_latency_ms
                                &&& r.settle_to is None
                                &&& if far {
                                    r.seek_to == Some(t as i64) && (r.jump matches Some(j) && j.0@ == cur && j.1@ == next)
                                } else {
                                    r.seek_to is None && r.jump is None
                                }
                            }
                            &&& s1 == (Shared {
                                current_segment: s1.current_segment,
                                pending_target: None,
                                open: None,
                                path: s1.path,
                                story_base_ms: s1.story_base_ms,
                                seg_start_ms: s1.seg_start_ms,
                                seg_end_ms: s1.seg_end_ms,
                                metrics: s1.metrics,
                                ..s0
                            })
                            &&& final(self).armed is None
                            &&& final(self).fired.ids@.len() == 0
                            &&& final(self).loop_live == old(self).loop_live
                            &&& !r.drop_loop
                            &&& final(self).ended_emitted == (old(self).ended_emitted || terminal)
                            &&& r.actions@.len() == 2 || (r.actions@.len() == 1 && old(self).ended_emitted)
                            &&& r.actions@[0] matches Action::Segment { segment_id } && segment_id@ == next
                            &&& !old(self).ended_emitted ==> r.actions@[1] == if terminal { Action::Ended } else { Action::SaveResume { pos_ms: t as i64 } }
                        },
                    }
                }
            }),
    {
        let seg = lookup(&bundle.manifest.segments, sh.current_segment.as_str()).unwrap();
        let seg_start = seg.start_time_ms;
        let end = match seg.end_time_ms {
            Some(e) => e,
            None => {
                return Crossing { seek_to: None, jump: None, settle_to: None, drop_loop: false, actions: Vec::new() };
            },
        };
        let loop_jumped = self.loop_live && match &self.armed {
            Some(a) => abs_diff(pos_ms, a.1) < 1500 && (pos_ms < seg_start || pos_ms >= end),
            None => false,
        };
        let forward_pending = !self.loop_live && match &self.armed {
            Some(a) => abs_diff(a.1, end) > CONTIGUOUS_MS as i128,
            None => false,
        };
        let trigger = if forward_pending {
            sub_sat(end, FORWARD_CUT_MARGIN_MS)
        } else {
            sub_sat(end, BOUNDARY_EPS_MS)
        };
        if !(pos_ms >= trigger || loop_jumped) {
            return Crossing { seek_to: None, jump: None, settle_to: None, drop_loop: false, actions: Vec::new() };
        }
        let cur = sh.current_segment.clone();
        let mut actions: Vec<Action> = Vec::new();
        match sh.resolve_next(bundle) {
            None => {
                self.armed = None;
                if !self.ended_emitted {
                    self.ended_emitted = true;
                    actions.push(Action::Ended);
                }
                Crossing { seek_to: None, jump: None, settle_to: None, drop_loop: self.loop_live, actions }
            },
            Some(next) => {
                let t = start_of(bundle, next.as_str(), end);
                sh.metrics.jumps = sh.metrics.jumps.wrapping_add(1);
                let mut seek_to: Option<i64> = None;
                let mut jump: Option<(String, String)> = None;
                let mut settle_to: Option<i64> = None;
                if abs_diff(t, end) > CONTIGUOUS_MS as i128 {
                    sh.metrics.seek_jumps = sh.metrics.seek_jumps.wrapping_add(1);
                    let pre_armed = self.loop_live && match &self.armed {
                        Some(a) => str_eq(a.0.as_str(), next.as_str()),
                        None => false,
                    };
                    if pre_armed {
                        settle_to = Some(t);
                        sh.metrics.last_from = Some(cur.clone());
                        sh.metrics.last_to = Some(next.clone());
                        sh.metrics.last_latency_ms = Some(0);
                    } else {
                        seek_to = Some(t);
                        jump = Some((cur.clone(), next.clone()));
                    }
                }
                self.armed = None;
                sh.story_base_ms = add_sat(sh.story_base_ms, sub_sat(end, seg_start));
                sh.current_segment = next.clone();
                let next_seg = lookup(&bundle.manifest.segments, next.as_str());
                let mut terminal = false;
                if let Some(ns) = next_seg {
                    sh.seg_start_ms = ns.start_time_ms;
                    sh.seg_end_ms = ns.end_time_ms;
                    terminal = ns.end_time_ms.is_none();
                }
                let ghost path0 = sh.path@;
                sh.path.push(next.clone());
                proof {
                    assert(sh.path@.drop_last() =~= path0);
                }
                sh.open = None;
                self.fired.clear();
                actions.push(Action::Segment { segment_id: next });
                if terminal && !self.ended_emitted {
                    self.ended_emitted = true;
                    actions.push(Action::Ended);
                } else if !self.ended_emitted {
                    actions.push(Action::SaveResume { pos_ms: t });
                }
                Crossing { seek_to, jump, settle_to, drop_loop: false, actions }
            },
        }
    }

    /// The periodic outputs of a tick: a resume checkpoint when
    /// `checkpoint_due` (until the ending), and the story clock when
    /// `clock_due` and the tick stayed in segment `segment_before` (which
    /// starts at `seg_start`).
    pub fn periodic(&self, sh: &Shared, segment_before: &str, seg_start: i64, pos_ms: i64, checkpoint_due: bool, clock_due: bool) -> (acts: Vec<Action>)
        ensures
            ({
                let save = !self.ended_emitted && checkpoint_due;
                let clock = sh.current_segment@ == segment_before@ && clock_due;
                let n_save: int = if save { 1 } else { 0 };
                &&& acts@.len() == n_save + if clock { 1int } else { 0 }
                &&& save ==> acts@[0] == Action::SaveResume { pos_ms }
                &&& clock ==> acts@[n_save] == Action::Clock { story_ms: story_at(sh.story_base_ms as int, pos_ms as int, seg_start as int) as i64 }
            }),
    {
        let mut acts: Vec<Action> = Vec::new();
        if !self.ended_emitted && checkpoint_due {
            acts.push(Action::SaveResume { pos_ms });
        }
        if str_eq(sh.current_segment.as_str(), segment_before) && clock_due {
            acts.push(Action::Clock { story_ms: story_ms_at(sh.story_base_ms, pos_ms, seg_start) });
        }
        acts
    }
}

/// What to do while waiting for a seek to land.
pub enum SettleStep {
    /// Not landed yet: poll again shortly.
    Wait,
    /// An armed loop cut never happened: seek to the target by hand.
    Repair,
    /// Landed (or gave up waiting): resume normal ticks.
    Landed,
}

/// After a jump to `expect_ms`: landed when the position is within 1.5 s of
/// it and the player is not seeking. A loop cut gets 1 s to happen (then
/// repair), an ordinary seek 4 s.
pub fn settle_step(expect_ms: i64, pos_ms: i64, seeking: bool, elapsed_ms: u64, loop_cut: bool) -> (r: SettleStep)
    ensures
        ({
            let landed = abs_i(pos_ms - expect_ms) < 1500 && !seeking;
            let limit: int = if loop_cut { 1000 } else { 4000 };
            if !landed && elapsed_ms < limit {
                r is Wait
            } else if !landed && loop_cut {
                r is Repair
            } else {
                r is Landed
            }
        }),
{
    let landed = abs_diff(pos_ms, expect_ms) < 1500 && !seeking;
    let limit: u64 = if loop_cut {
        1000
    } else {
        4000
    };
    if !landed && elapsed_ms < limit {
        SettleStep::Wait
    } else if !landed && loop_cut {
        SettleStep::Repair
    } else {
        SettleStep::Landed
    }
}

/// How long to wait before the next tick: 4 ms within 120 ms of the
/// segment end, 15 ms otherwise.
pub fn poll_interval_ms(seg_end: Option<i64>, pos_ms: i64) -> (r: u64)
    ensures
        r == if (seg_end matches Some(e) && e - pos_ms < 120) { 4u64 } else { 15u64 },
{
    match seg_end {
        Some(e) => if (e as i128) - (pos_ms as i128) < 120 {
            4
        } else {
            15
        },
        None => 15,
    }
}

impl Driver {
    /// Fire, in order, every moment of the current segment whose window
    /// holds `pos_ms` and that has not fired this visit (see
    /// `fire_moment`); the actions come out in that order.
    pub fn fire_moments(&mut self, sh: &mut Shared, bundle: &InteractiveBundle, assets: &[(String, String)], pos_ms: i64) -> (acts: Vec<Action>)
        requires
            find_key(bundle.manifest.segments@, old(sh).current_segment@) is Some,
        ensures
            exists|states: Seq<Shared>, chunks: Seq<Seq<Action>>| {
                &&& fire_run(*bundle, assets@, segment_moments(*bundle, old(sh).current_segment@), old(self).fired.ids@,
                    pos_ms as int, states, chunks)
                &&& chunks.len() == segment_moments(*bundle, old(sh).current_segment@).len()
                &&& states[0] == *old(sh)
                &&& states.last() == *final(sh)
                &&& acts@ == chunks.flatten()
            },
            final(sh).current_segment == old(sh).current_segment,
            final(sh).path == old(sh).path,
            final(sh).pending_target == old(sh).pending_target,
            final(sh).story_base_ms == old(sh).story_base_ms,
            final(self).armed == old(self).armed,
            final(self).loop_live == old(self).loop_live,
            final(self).ended_emitted == old(self).ended_emitted,
            forall|j: usize| #[trigger] final(self).fired.ids@.contains(j) == (old(self).fired.ids@.contains(j)
                || fires_at(segment_moments(*bundle, old(sh).current_segment@), old(self).fired.ids@, j as int, pos_ms as int)),
    {
        let mut acts: Vec<Action> = Vec::new();
        let n = match lookup(&bundle.moments.moments_by_segment, sh.current_segment.as_str()) {
            Some(ms) => ms.len(),
            None => 0,
        };
        let ghost cur = sh.current_segment@;
        let ghost ms = segment_moments(*bundle, cur);
        let ghost f0 = self.fired.ids@;
        let ghost s0 = *sh;
        let ghost mut states: Seq<Shared> = seq![s0];
        let ghost mut chunks: Seq<Seq<Action>> = Seq::empty();
        let mut i: usize = 0;
        while i < n
            invariant
                i <= n,
                n == ms.len(),
                ms == segment_moments(*bundle, sh.current_segment@),
                cur == sh.current_segment@,
                find_key(bundle.manifest.segments@, sh.current_segment@) is Some,
                sh.current_segment == s0.current_segment,
                sh.path == s0.path,
                sh.pending_target == s0.pending_target,
                sh.story_base_ms == s0.story_base_ms,
                self.armed == old(self).armed,
                self.loop_live == old(self).loop_live,
                self.ended_emitted == old(self).ended_emitted,
                forall|j: usize| #[trigger] self.fired.ids@.contains(j) == (f0.contains(j) || (j < i && fires_at(ms, f0, j as int, pos_ms as int))),
                fire_run(*bundle, assets@, ms, f0, pos_ms as int, states, chunks),
                chunks.len() == i,
                states[0] == s0,
                states.last() == *sh,
                acts@ == chunks.flatten(),
            decreases n - i,
        {
            let ghost fb = self.fired.ids@;
            let ghost sb = *sh;
            proof {
                assert(fb.contains(i) == f0.contains(i));
                assert(fires_at(ms, fb, i as int, pos_ms as int) == fires_at(ms, f0, i as int, pos_ms as int));
            }
            let mut more = self.fire_moment(sh, bundle, assets, i, pos_ms);
            let ghost chunk = more@;
            acts.append(&mut more);
            proof {
                let old_states = states;
                let old_chunks = chunks;
                chunks = chunks.push(chunk);
                states = states.push(*sh);
                old_chunks.lemma_flatten_push(chunk);
                assert forall|k: int| #![trigger chunks[k]] 0 <= k < chunks.len() implies fire_step(*bundle, assets@,
                    fires_at(ms, f0, k, pos_ms as int), states[k], k, pos_ms as int, chunks[k], states[k + 1]) by {
                    if k < old_chunks.len() {
                        assert(chunks[k] == old_chunks[k]);
                        assert(old_chunks[k] == old_chunks[k]);
                        assert(states[k] == old_states[k]);
                        assert(states[k + 1] == old_states[k + 1]);
                    } else {
                        assert(k == i);
                        assert(states[k] == sb);
                        assert(states[k + 1] == *sh);
                        assert(chunks[k] == chunk);
                    }
                }
            }
            i += 1;
        }
        proof {
            assert(states.last() == *sh);
        }
        acts
    }
}

} // verus!
