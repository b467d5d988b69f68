//! Starting an interactive title: whether its metadata and video belong
//! together, and where a saved mid-story session picks up again.

use vstd::prelude::*;
use crate::choice::{fmt_ms, fmt_ms_spec, is_choice_spec, moment_is_choice, moment_window, window_spec};
use crate::interactive::{Moment, StateHistory};
use crate::json::{entry_views, Json, JsonValue};
use crate::state::{insert_all, StateMap};
use crate::text::push_str;
use crate::validate::ValidationReport;
use crate::engine::{max_i, sat_sub, story_at, story_ms_at, sub_sat};
use crate::interactive::InteractiveBundle;
use crate::keyed::{find_key, lookup};
use crate::session::Shared;

verus! {

pub open spec fn max_int(a: int, b: int) -> int {
    if a >= b {
        a
    } else {
        b
    }
}

/// One choice moment's say in where a resumed session lands (offsets are
/// from the segment's start): a window that closed before the save point is
/// skipped past; a save inside a window skips past it when a pick was
/// already committed, else re-presents the choice a second before its top.
pub open spec fn landing_step(land: int, offset: int, seg_start: int, m: Moment, pending: bool) -> int {
    if is_choice_spec(m) {
        match window_spec(m) {
            Some((ws, we)) => {
                let rs = ws - seg_start;
                let re = we - seg_start;
                if offset >= re {
                    max_int(land, re)
                } else if offset >= rs {
                    if pending {
                        max_int(land, re)
                    } else {
                        max_int(rs - 1000, 0)
                    }
                } else {
                    land
                }
            },
            None => land,
        }
    } else {
        land
    }
}

/// The landing after the first `n` moments, starting from a four-second
/// cushion before the save point.
pub open spec fn landing_upto(moments: Seq<Moment>, n: int, offset: int, seg_start: int, pending: bool) -> int
    decreases n,
{
    if n <= 0 {
        max_int(offset - 4000, 0)
    } else {
        landing_step(landing_upto(moments, n - 1, offset, seg_start, pending), offset, seg_start, moments[n - 1], pending)
    }
}

/// Where in its segment a saved session resumes: `saved_offset_ms` (read
/// as 0 when negative) into the segment starting at `seg_start_ms`, whose
/// moments are `moments`; `pending` tells whether a pick was committed.
/// The result is an offset from the segment's start.
pub fn resume_landing(saved_offset_ms: i64, seg_start_ms: i64, moments: &[Moment], pending: bool) -> (r: i128)
    ensures
        r == landing_upto(
            moments@,
            moments@.len() as int,
            if saved_offset_ms < 0 {
                0
            } else {
                saved_offset_ms as int
            },
            seg_start_ms as int,
            pending,
        ),
{
    let offset: i128 = if saved_offset_ms < 0 {
        0
    } else {
        saved_offset_ms as i128
    };
    let start = seg_start_ms as i128;
    let mut land: i128 = if offset - 4000 > 0 {
        offset - 4000
    } else {
        0
    };
    let mut i: usize = 0;
    while i < moments.len()
        invariant
            i <= moments@.len(),
            offset == (if saved_offset_ms < 0 {
                0
            } else {
                saved_offset_ms as int
            }),
            start == seg_start_ms,
            0 <= offset <= i64::MAX,
            land == landing_upto(moments@, i as int, offset as int, start as int, pending),
            -0x2_0000_0000_0000_0000 <= land <= 0x2_0000_0000_0000_0000,
        decreases moments.len() - i,
    {
        let m = &moments[i];
        if moment_is_choice(m) {
            if let Some((ws, we)) = moment_window(m) {
                let rs = ws as i128 - start;
                let re = we as i128 - start;
                if offset >= re {
                    if re > land {
                        land = re;
                    }
                } else if offset >= rs {
                    if pending {
                        if re > land {
                            land = re;
                        }
                    } else {
                        land = if rs - 1000 > 0 {
                            rs - 1000
                        } else {
                            0
                        };
                    }
                }
            }
        }
        i += 1;
    }
    land
}

/// The metadata's timeline must fit the video: its length must be known,
/// and the branch graph may run at most two seconds past its end.
pub open spec fn video_fit_spec(duration_ms: i64, max_end_ms: i64) -> Result<(), Seq<char>> {
    if duration_ms == 0 {
        Err("Could not read the video's duration"@)
    } else if duration_ms + 2000 < max_end_ms {
        Err(
            "Video/metadata mismatch: the branch graph runs to "@ + fmt_ms_spec(max_end_ms as int)
                + " but the video only lasts "@ + fmt_ms_spec(duration_ms as int)
                + ". The video and JSON files must come from the same source."@,
        )
    } else {
        Ok(())
    }
}

pub fn video_fit(duration_ms: i64, max_end_ms: i64) -> (r: Result<(), String>)
    ensures
        match video_fit_spec(duration_ms, max_end_ms) {
            Ok(_) => r is Ok,
            Err(e) => r matches Err(x) && x@ == e,
        },
{
    if duration_ms == 0 {
        return Err(String::from_str("Could not read the video's duration"));
    }
    if (duration_ms as i128) + 2000 < max_end_ms as i128 {
        let mut e = String::from_str("Video/metadata mismatch: the branch graph runs to ");
        let a = fmt_ms(max_end_ms);
        push_str(&mut e, a.as_str());
        push_str(&mut e, " but the video only lasts ");
        let b = fmt_ms(duration_ms);
        push_str(&mut e, b.as_str());
        push_str(&mut e, ". The video and JSON files must come from the same source.");
        return Err(e);
    }
    Ok(())
}

/// A bundle that failed validation is refused with its first error.
pub fn validation_failure(report: &ValidationReport) -> (r: Option<String>)
    ensures
        report.errors@.len() == 0 ==> r is None,
        report.errors@.len() > 0 ==> (r matches Some(m) && m@ == "Interactive metadata failed validation: "@
            + report.errors@[0]@),
{
    if report.ok() {
        return None;
    }
    let mut m = String::from_str("Interactive metadata failed validation: ");
    push_str(&mut m, report.errors[0].as_str());
    Some(m)
}

/// A fresh start seeks to the initial segment only when it starts more
/// than a tenth of a second in.
pub fn initial_seek(initial_start_ms: i64) -> (r: Option<i64>)
    ensures
        r == if initial_start_ms > 100 {
            Some(initial_start_ms)
        } else {
            None::<i64>
        },
{
    if initial_start_ms > 100 {
        Some(initial_start_ms)
    } else {
        None
    }
}

/// The state scopes of a fresh playthrough: the title's initial values
/// (none: empty), with the persistent story memory saved earlier laid over
/// the initial persistent scope member by member.
pub fn fresh_scopes(defaults: &Option<StateHistory>, saved_persistent: &Vec<(String, JsonValue)>) -> (r: (StateMap, StateMap))
    ensures
        r.0@ == match *defaults {
            Some(d) => d.global@,
            None => Map::<Seq<char>, Json>::empty(),
        },
        r.1@ == insert_all(
            match *defaults {
                Some(d) => d.persistent@,
                None => Map::<Seq<char>, Json>::empty(),
            },
            entry_views(saved_persistent@),
        ),
{
    let (global, mut persistent) = match defaults {
        Some(d) => (d.global.deep_copy(), d.persistent.deep_copy()),
        None => (StateMap::new(), StateMap::new()),
    };
    let ghost base = persistent@;
    proof {
        crate::json::lemma_entry_views(saved_persistent@);
        assert(entry_views(saved_persistent@).take(0) =~= Seq::<(Seq<char>, Json)>::empty());
    }
    let mut i: usize = 0;
    while i < saved_persistent.len()
        invariant
            i <= saved_persistent@.len(),
            entry_views(saved_persistent@).len() == saved_persistent@.len(),
            forall|k: int|
                0 <= k < saved_persistent@.len() ==> #[trigger] entry_views(saved_persistent@)[k] == (
                saved_persistent@[k].0@,
                saved_persistent@[k].1@,
            ),
            persistent@ == insert_all(base, entry_views(saved_persistent@).take(i as int)),
        decreases saved_persistent.len() - i,
    {
        let (k, v) = &saved_persistent[i];
        persistent.insert(k.clone(), v.deep_copy());
        proof {
            let t = entry_views(saved_persistent@).take(i as int + 1);
            assert(t.drop_last() =~= entry_views(saved_persistent@).take(i as int));
            assert(t.last() == entry_views(saved_persistent@)[i as int]);
        }
        i += 1;
    }
    proof {
        assert(entry_views(saved_persistent@).take(saved_persistent@.len() as int) =~= entry_views(saved_persistent@));
    }
    (global, persistent)
}

/// Where a checkpoint puts the session: the segment, the offset into it
/// (never negative) and the story time.
pub struct ResumePoint {
    pub segment: String,
    pub offset_ms: i64,
    pub story_ms: i64,
}

/// The start of the segment `sh` is in, or `pos` when the bundle lacks it.
pub open spec fn checkpoint_start(b: InteractiveBundle, sh: Shared, pos: int) -> int {
    match find_key(b.manifest.segments@, sh.current_segment@) {
        Some(k) => b.manifest.segments@[k].1.start_time_ms as int,
        None => pos,
    }
}

/// The checkpoint of session `sh` at playback position `pos_ms`.
pub fn resume_point(sh: &Shared, bundle: &InteractiveBundle, pos_ms: i64) -> (r: ResumePoint)
    ensures
        r.segment@ == sh.current_segment@,
        r.offset_ms == max_i(sat_sub(pos_ms as int, checkpoint_start(*bundle, *sh, pos_ms as int)), 0),
        r.story_ms == story_at(sh.story_base_ms as int, pos_ms as int, checkpoint_start(*bundle, *sh, pos_ms as int)),
{
    let start = match lookup(&bundle.manifest.segments, sh.current_segment.as_str()) {
        Some(seg) => seg.start_time_ms,
        None => pos_ms,
    };
    let d = sub_sat(pos_ms, start);
    let offset = if d > 0 {
        d
    } else {
        0
    };
    ResumePoint { segment: sh.current_segment.clone(), offset_ms: offset, story_ms: story_ms_at(sh.story_base_ms, pos_ms, start) }
}

/// Story time at the resumed segment's entry: the saved story time less the
/// saved offset (read as 0 when negative).
pub fn resumed_story_base(story_ms: i64, saved_offset_ms: i64) -> (r: i64)
    ensures
        r == sat_sub(story_ms as int, if saved_offset_ms < 0 { 0 } else { saved_offset_ms as int }),
{
    let offset = if saved_offset_ms < 0 {
        0
    } else {
        saved_offset_ms
    };
    sub_sat(story_ms, offset)
}

} // verus!
