//! Cross-checking a bundle's two files as one graph: every reference
//! (`defaultNext`, `next`, choice target, segment-group member, precondition
//! id) must resolve, times must be sane, and timestamps duplicated between
//! the files must agree (disagreement means a mismatched pair).

use vstd::prelude::*;
use crate::interactive::{Choice, GroupItem, InteractiveBundle, ManifestSegment, Moment};
use crate::keyed::{contains_key, has_key, lookup, find_key, lemma_first_key_from};
use crate::text::{decimal_int, push_decimal_i64, push_str, str_eq};
use crate::session::{group_spec, item_spec, items_spec, min_key_upto, peek_spec, ref_spec, successor_spec, ROUTING_DEPTH};
use crate::json::Json;

verus! {

/// One finding: an error (true) or a warning (false), and its message.
pub type Finding = (bool, Seq<char>);

pub open spec fn strs(v: Seq<String>) -> Seq<Seq<char>> {
    v.map_values(|s: String| s@)
}

/// The messages of the errors among `log`, in order.
pub open spec fn errors_of(log: Seq<Finding>) -> Seq<Seq<char>>
    decreases log.len(),
{
    if log.len() == 0 {
        Seq::empty()
    } else if log.last().0 {
        errors_of(log.drop_last()).push(log.last().1)
    } else {
        errors_of(log.drop_last())
    }
}

/// The messages of the warnings among `log`, in order.
pub open spec fn warnings_of(log: Seq<Finding>) -> Seq<Seq<char>>
    decreases log.len(),
{
    if log.len() == 0 {
        Seq::empty()
    } else if !log.last().0 {
        warnings_of(log.drop_last()).push(log.last().1)
    } else {
        warnings_of(log.drop_last())
    }
}

pub open spec fn err_if(c: bool, msg: Seq<char>) -> Seq<Finding> {
    if c {
        seq![(true, msg)]
    } else {
        Seq::empty()
    }
}

pub open spec fn warn_if(c: bool, msg: Seq<char>) -> Seq<Finding> {
    if c {
        seq![(false, msg)]
    } else {
        Seq::empty()
    }
}

/// `Option<i64>` as `{:?}` prints it.
pub open spec fn opt_debug(o: Option<i64>) -> Seq<char> {
    match o {
        Some(v) => "Some("@ + decimal_int(v as int) + ")"@,
        None => "None"@,
    }
}

/// `'x'`.
pub open spec fn quoted(x: Seq<char>) -> Seq<char> {
    "'"@ + x + "'"@
}

// --- the findings of each check, in the order they are made ----------------

pub open spec fn head_findings(b: InteractiveBundle) -> Seq<Finding> {
    let init = b.manifest.initial_segment@;
    let missing = err_if(
        !has_key(b.manifest.segments@, init),
        "initialSegment "@ + quoted(init) + " not in segments"@,
    );
    let mismatch = match (b.manifest.viewable_id, b.info_video_id) {
        (Some(vid), Some(info)) => warn_if(
            decimal_int(vid as int) != info@,
            "viewableId mismatch: manifest "@ + decimal_int(vid as int) + " vs info "@ + info@,
        ),
        _ => Seq::empty(),
    };
    missing + mismatch
}

pub open spec fn next_findings(b: InteractiveBundle, id: Seq<char>, keys: Seq<String>, n: int) -> Seq<Finding>
    decreases n,
{
    if n <= 0 || n > keys.len() {
        Seq::empty()
    } else {
        next_findings(b, id, keys, n - 1) + err_if(
            !has_key(b.manifest.segments@, keys[n - 1]@),
            "segment "@ + quoted(id) + " next target "@ + quoted(keys[n - 1]@) + " unresolved"@,
        )
    }
}

#[verifier::opaque]
pub open spec fn seg_negative(id: Seq<char>, seg: ManifestSegment) -> Seq<Finding> {
    err_if(
        seg.start_time_ms < 0,
        "segment "@ + quoted(id) + " has negative startTimeMs "@ + decimal_int(seg.start_time_ms as int),
    )
}

#[verifier::opaque]
pub open spec fn seg_range(id: Seq<char>, seg: ManifestSegment) -> Seq<Finding> {
    let start = seg.start_time_ms as int;
    let has_successors = (seg.next matches Some(n) && n@.len() > 0) || seg.default_next is Some;
    match seg.end_time_ms {
        Some(end) => err_if(
            end <= start,
            "segment "@ + quoted(id) + " has invalid time range "@ + decimal_int(start) + ".."@ + decimal_int(end as int),
        ),
        None => err_if(has_successors, "segment "@ + quoted(id) + " has successors but no endTimeMs"@),
    }
}

#[verifier::opaque]
pub open spec fn seg_default_next(b: InteractiveBundle, id: Seq<char>, seg: ManifestSegment) -> Seq<Finding> {
    match seg.default_next {
        Some(nx) => err_if(
            !has_key(b.manifest.segments@, nx@),
            "segment "@ + quoted(id) + " defaultNext "@ + quoted(nx@) + " unresolved"@,
        ),
        None => Seq::empty(),
    }
}

#[verifier::opaque]
pub open spec fn seg_nexts(b: InteractiveBundle, id: Seq<char>, seg: ManifestSegment) -> Seq<Finding> {
    match seg.next {
        Some(keys) => next_findings(b, id, keys@, keys@.len() as int),
        None => Seq::empty(),
    }
}

pub open spec fn seg_findings(b: InteractiveBundle, id: Seq<char>, seg: ManifestSegment) -> Seq<Finding> {
    seg_negative(id, seg) + seg_range(id, seg) + seg_default_next(b, id, seg) + seg_nexts(b, id, seg)
}

pub open spec fn segs_findings(b: InteractiveBundle, n: int) -> Seq<Finding>
    decreases n,
{
    let segs = b.manifest.segments@;
    if n <= 0 || n > segs.len() {
        Seq::empty()
    } else {
        segs_findings(b, n - 1) + seg_findings(b, segs[n - 1].0@, segs[n - 1].1)
    }
}

pub open spec fn item_findings(b: InteractiveBundle, gid: Seq<char>, it: GroupItem) -> Seq<Finding> {
    let segs = b.manifest.segments@;
    let groups = b.moments.segment_groups@;
    match it {
        GroupItem::Ref(s) => err_if(
            !has_key(segs, s@) && !has_key(groups, s@),
            "segmentGroup "@ + quoted(gid) + " member "@ + quoted(s@) + " unresolved"@,
        ),
        GroupItem::Segment { segment, precondition } => err_if(
            !has_key(segs, segment@),
            "segmentGroup "@ + quoted(gid) + " member segment "@ + quoted(segment@) + " unresolved"@,
        ) + match precondition {
            Some(p) => err_if(
                !has_key(b.moments.preconditions@, p@),
                "segmentGroup "@ + quoted(gid) + " precondition "@ + quoted(p@) + " unresolved"@,
            ),
            None => Seq::empty(),
        },
        GroupItem::Group { segment_group } => err_if(
            !has_key(groups, segment_group@),
            "segmentGroup "@ + quoted(gid) + " nested group "@ + quoted(segment_group@) + " unresolved"@,
        ),
    }
}

pub open spec fn items_findings(b: InteractiveBundle, gid: Seq<char>, items: Seq<GroupItem>, n: int) -> Seq<Finding>
    decreases n,
{
    if n <= 0 || n > items.len() {
        Seq::empty()
    } else {
        items_findings(b, gid, items, n - 1) + item_findings(b, gid, items[n - 1])
    }
}

pub open spec fn groups_findings(b: InteractiveBundle, n: int) -> Seq<Finding>
    decreases n,
{
    let groups = b.moments.segment_groups@;
    if n <= 0 || n > groups.len() {
        Seq::empty()
    } else {
        groups_findings(b, n - 1) + items_findings(b, groups[n - 1].0@, groups[n - 1].1@, groups[n - 1].1@.len() as int)
    }
}

/// How a choice is named in messages: its id, else its text, else `?`.
pub open spec fn choice_name(c: Choice) -> Seq<char> {
    match c.id {
        Some(i) => i@,
        None => match c.text {
            Some(t) => t@,
            None => "?"@,
        },
    }
}

/// How a moment is named in messages: its id, else `?`.
pub open spec fn moment_name(m: Moment) -> Seq<char> {
    match m.id {
        Some(i) => i@,
        None => "?"@,
    }
}

/// `choice 'name' on 'sid'`.
pub open spec fn choice_who(sid: Seq<char>, c: Choice) -> Seq<char> {
    "choice "@ + quoted(choice_name(c)) + " on "@ + quoted(sid)
}

#[verifier::opaque]
pub open spec fn choice_target_findings(b: InteractiveBundle, sid: Seq<char>, c: Choice) -> Seq<Finding> {
    let segs = b.manifest.segments@;
    let groups = b.moments.segment_groups@;
    let who = choice_who(sid, c);
    match (c.segment_id, c.sg) {
        (Some(t), _) => match find_key(segs, t@) {
            Some(i) => match c.start_time_ms {
                Some(claimed) => err_if(
                    claimed != segs[i].1.start_time_ms,
                    who + ": startTimeMs "@ + decimal_int(claimed as int) + " disagrees with segment "@ + quoted(t@)
                        + " start "@ + decimal_int(segs[i].1.start_time_ms as int)
                        + " \u{2014} files may be a mismatched pair"@,
                ),
                None => Seq::empty(),
            },
            None => err_if(!has_key(groups, t@), who + " target "@ + quoted(t@) + " unresolved"@),
        },
        (None, Some(g)) => err_if(!has_key(groups, g@), who + " segment group "@ + quoted(g@) + " unresolved"@),
        (None, None) => seq![(false, who + " has no segment target"@)],
    }
}

#[verifier::opaque]
pub open spec fn choice_pre_findings(b: InteractiveBundle, sid: Seq<char>, c: Choice) -> Seq<Finding> {
    match c.precondition_id {
        Some(p) => err_if(
            !has_key(b.moments.preconditions@, p@),
            choice_who(sid, c) + " preconditionId "@ + quoted(p@) + " unresolved"@,
        ),
        None => Seq::empty(),
    }
}

pub open spec fn choice_findings(b: InteractiveBundle, sid: Seq<char>, c: Choice) -> Seq<Finding> {
    choice_target_findings(b, sid, c) + choice_pre_findings(b, sid, c)
}

pub open spec fn choices_findings(b: InteractiveBundle, sid: Seq<char>, cs: Seq<Choice>, n: int) -> Seq<Finding>
    decreases n,
{
    if n <= 0 || n > cs.len() {
        Seq::empty()
    } else {
        choices_findings(b, sid, cs, n - 1) + choice_findings(b, sid, cs[n - 1])
    }
}

/// `moment 'name' on 'sid'`.
pub open spec fn moment_who(sid: Seq<char>, m: Moment) -> Seq<char> {
    "moment "@ + quoted(moment_name(m)) + " on "@ + quoted(sid)
}

#[verifier::opaque]
pub open spec fn moment_pre_findings(b: InteractiveBundle, sid: Seq<char>, m: Moment) -> Seq<Finding> {
    match m.precondition_id {
        Some(p) => err_if(
            !has_key(b.moments.preconditions@, p@),
            moment_who(sid, m) + " preconditionId "@ + quoted(p@) + " unresolved"@,
        ),
        None => Seq::empty(),
    }
}

#[verifier::opaque]
pub open spec fn moment_window_findings(b: InteractiveBundle, sid: Seq<char>, m: Moment) -> Seq<Finding> {
    let segs = b.manifest.segments@;
    match (m.start_ms, m.end_ms) {
        (Some(start), Some(end)) => err_if(
            end <= start,
            moment_who(sid, m) + " has invalid window "@ + decimal_int(start as int) + ".."@ + decimal_int(end as int),
        ) + match find_key(segs, sid) {
            Some(i) => {
                let seg = segs[i].1;
                let seg_end: i64 = match seg.end_time_ms {
                    Some(e) => e,
                    None => i64::MAX,
                };
                warn_if(
                    start < seg.start_time_ms || end > seg_end,
                    "moment "@ + quoted(moment_name(m)) + " window "@ + decimal_int(start as int) + ".."@ + decimal_int(end as int)
                        + " outside segment "@ + quoted(sid) + " "@ + decimal_int(seg.start_time_ms as int) + ".."@
                        + opt_debug(seg.end_time_ms),
                )
            },
            None => Seq::empty(),
        },
        _ => Seq::empty(),
    }
}

#[verifier::opaque]
pub open spec fn moment_dci_findings(sid: Seq<char>, m: Moment) -> Seq<Finding> {
    let n: int = match m.choices {
        Some(c) => c@.len() as int,
        None => 0,
    };
    match m.default_choice_index {
        Some(idx) => err_if(
            idx < 0 || (n > 0 && idx >= n),
            moment_who(sid, m) + " defaultChoiceIndex "@ + decimal_int(idx as int) + " out of range (choices: "@ + decimal_int(n) + ")"@,
        ),
        None => Seq::empty(),
    }
}

#[verifier::opaque]
pub open spec fn moment_timeout_findings(b: InteractiveBundle, sid: Seq<char>, m: Moment) -> Seq<Finding> {
    match m.timeout_segment {
        Some(ts) => match ts.segment_id {
            Some(t) => err_if(
                !has_key(b.manifest.segments@, t@) && !has_key(b.moments.segment_groups@, t@),
                moment_who(sid, m) + " timeoutSegment "@ + quoted(t@) + " unresolved"@,
            ),
            None => Seq::empty(),
        },
        None => Seq::empty(),
    }
}

#[verifier::opaque]
pub open spec fn moment_choice_findings(b: InteractiveBundle, sid: Seq<char>, m: Moment) -> Seq<Finding> {
    match m.choices {
        Some(cs) => choices_findings(b, sid, cs@, cs@.len() as int),
        None => Seq::empty(),
    }
}

pub open spec fn moment_findings(b: InteractiveBundle, sid: Seq<char>, m: Moment) -> Seq<Finding> {
    moment_pre_findings(b, sid, m) + moment_window_findings(b, sid, m) + moment_dci_findings(sid, m)
        + moment_timeout_findings(b, sid, m) + moment_choice_findings(b, sid, m)
}

pub open spec fn moments_findings(b: InteractiveBundle, sid: Seq<char>, ms: Seq<Moment>, n: int) -> Seq<Finding>
    decreases n,
{
    if n <= 0 || n > ms.len() {
        Seq::empty()
    } else {
        moments_findings(b, sid, ms, n - 1) + moment_findings(b, sid, ms[n - 1])
    }
}

pub open spec fn msegs_findings(b: InteractiveBundle, n: int) -> Seq<Finding>
    decreases n,
{
    let mbs = b.moments.moments_by_segment@;
    if n <= 0 || n > mbs.len() {
        Seq::empty()
    } else {
        let sid = mbs[n - 1].0@;
        msegs_findings(b, n - 1) + err_if(
            !has_key(b.manifest.segments@, sid),
            "momentsBySegment key "@ + quoted(sid) + " not in manifest segments"@,
        ) + moments_findings(b, sid, mbs[n - 1].1@, mbs[n - 1].1@.len() as int)
    }
}

/// Everything `validate` finds in `b`, in order.
pub open spec fn findings(b: InteractiveBundle) -> Seq<Finding> {
    head_findings(b) + segs_findings(b, b.manifest.segments@.len() as int) + groups_findings(
        b,
        b.moments.segment_groups@.len() as int,
    ) + msegs_findings(b, b.moments.moments_by_segment@.len() as int)
}

/// Latest end (or, for a terminal segment, start) among the first `n`
/// segments, and 0 when that is larger.
pub open spec fn max_end_upto(segs: Seq<(String, ManifestSegment)>, n: int) -> int
    decreases n,
{
    if n <= 0 || n > segs.len() {
        0
    } else {
        let s = segs[n - 1].1;
        let v: int = match s.end_time_ms {
            Some(e) => e as int,
            None => s.start_time_ms as int,
        };
        let prev = max_end_upto(segs, n - 1);
        if v > prev {
            v
        } else {
            prev
        }
    }
}

/// Moments among the first `n` segments of `momentsBySegment`.
pub open spec fn moments_upto(mbs: Seq<(String, Vec<Moment>)>, n: int) -> int
    decreases n,
{
    if n <= 0 || n > mbs.len() {
        0
    } else {
        moments_upto(mbs, n - 1) + mbs[n - 1].1@.len()
    }
}

/// Choices among the first `n` moments.
pub open spec fn choices_in(ms: Seq<Moment>, n: int) -> int
    decreases n,
{
    if n <= 0 || n > ms.len() {
        0
    } else {
        choices_in(ms, n - 1) + match ms[n - 1].choices {
            Some(c) => c@.len() as int,
            None => 0int,
        }
    }
}

/// Choices among the first `n` segments of `momentsBySegment`.
pub open spec fn choices_upto(mbs: Seq<(String, Vec<Moment>)>, n: int) -> int
    decreases n,
{
    if n <= 0 || n > mbs.len() {
        0
    } else {
        choices_upto(mbs, n - 1) + choices_in(mbs[n - 1].1@, mbs[n - 1].1@.len() as int)
    }
}

pub open spec fn capped(v: int) -> int {
    if v > usize::MAX {
        usize::MAX as int
    } else {
        v
    }
}

/// What `validate` reports.
pub struct ValidationReport {
    pub segment_count: usize,
    pub moment_segment_count: usize,
    pub moment_count: usize,
    pub choice_count: usize,
    pub precondition_count: usize,
    pub segment_group_count: usize,
    pub max_end_time_ms: i64,
    /// Structural problems that would break playback.
    pub errors: Vec<String>,
    /// Oddities worth logging that playback can survive.
    pub warnings: Vec<String>,
}

impl ValidationReport {
    /// No structural problem was found.
    pub fn ok(&self) -> (b: bool)
        ensures
            b == (self.errors@.len() == 0),
    {
        self.errors.len() == 0
    }
}

/// The findings so far, split into errors and warnings.
struct Findings {
    errors: Vec<String>,
    warnings: Vec<String>,
    log: Ghost<Seq<Finding>>,
}

impl Findings {
    spec fn wf(&self) -> bool {
        &&& strs(self.errors@) == errors_of(self.log@)
        &&& strs(self.warnings@) == warnings_of(self.log@)
    }

    fn new() -> (f: Findings)
        ensures
            f.wf(),
            f.log@ == Seq::<Finding>::empty(),
    {
        let f = Findings { errors: Vec::new(), warnings: Vec::new(), log: Ghost(Seq::empty()) };
        assert(strs(f.errors@) =~= Seq::empty());
        assert(strs(f.warnings@) =~= Seq::empty());
        f
    }

    fn add(&mut self, is_error: bool, msg: String)
        requires
            old(self).wf(),
        ensures
            final(self).wf(),
            final(self).log@ == old(self).log@.push((is_error, msg@)),
    {
        let ghost entry = (is_error, msg@);
        let ghost before = self.log@;
        if is_error {
            self.errors.push(msg);
        } else {
            self.warnings.push(msg);
        }
        self.log = Ghost(before.push(entry));
        proof {
            assert(self.log@.drop_last() =~= before);
            assert(strs(self.errors@) =~= errors_of(self.log@));
            assert(strs(self.warnings@) =~= warnings_of(self.log@));
        }
    }

    /// Add an error when `c` holds.
    fn err_when(&mut self, c: bool, msg: String)
        requires
            old(self).wf(),
        ensures
            final(self).wf(),
            final(self).log@ == old(self).log@ + err_if(c, msg@),
    {
        if c {
            self.add(true, msg);
        } else {
            assert(old(self).log@ + err_if(c, msg@) =~= old(self).log@);
        }
        proof {
            if c {
                assert(old(self).log@.push((true, msg@)) =~= old(self).log@ + err_if(c, msg@));
            }
        }
    }

    /// Add a warning when `c` holds.
    fn warn_when(&mut self, c: bool, msg: String)
        requires
            old(self).wf(),
        ensures
            final(self).wf(),
            final(self).log@ == old(self).log@ + warn_if(c, msg@),
    {
        if c {
            self.add(false, msg);
        } else {
            assert(old(self).log@ + warn_if(c, msg@) =~= old(self).log@);
        }
        proof {
            if c {
                assert(old(self).log@.push((false, msg@)) =~= old(self).log@ + warn_if(c, msg@));
            }
        }
    }
}

// --- message text ---------------------------------------------------------

fn text2(a: &str, x: &str, b: &str) -> (r: String)
    ensures
        r@ == a@ + x@ + b@,
{
    let mut s = String::new();
    push_str(&mut s, a);
    push_str(&mut s, x);
    push_str(&mut s, b);
    assert(s@ =~= a@ + x@ + b@);
    s
}

/// `a 'x' b 'y' c`.
fn text_q2(a: &str, x: &str, b: &str, y: &str, c: &str) -> (r: String)
    ensures
        r@ == a@ + quoted(x@) + b@ + quoted(y@) + c@,
{
    let mut s = String::new();
    push_str(&mut s, a);
    push_str(&mut s, "'");
    push_str(&mut s, x);
    push_str(&mut s, "'");
    push_str(&mut s, b);
    push_str(&mut s, "'");
    push_str(&mut s, y);
    push_str(&mut s, "'");
    push_str(&mut s, c);
    assert(s@ =~= a@ + quoted(x@) + b@ + quoted(y@) + c@);
    s
}

/// `a 'x' b`.
fn text_q1(a: &str, x: &str, b: &str) -> (r: String)
    ensures
        r@ == a@ + quoted(x@) + b@,
{
    let mut s = String::new();
    push_str(&mut s, a);
    push_str(&mut s, "'");
    push_str(&mut s, x);
    push_str(&mut s, "'");
    push_str(&mut s, b);
    assert(s@ =~= a@ + quoted(x@) + b@);
    s
}

fn push_quoted(s: &mut String, x: &str)
    ensures
        final(s)@ == old(s)@ + quoted(x@),
{
    push_str(s, "'");
    push_str(s, x);
    push_str(s, "'");
    assert(final(s)@ =~= old(s)@ + quoted(x@));
}

fn push_opt_debug(s: &mut String, o: Option<i64>)
    ensures
        final(s)@ == old(s)@ + opt_debug(o),
{
    match o {
        Some(v) => {
            push_str(s, "Some(");
            push_decimal_i64(s, v);
            push_str(s, ")");
        },
        None => push_str(s, "None"),
    }
    assert(final(s)@ =~= old(s)@ + opt_debug(o));
}

// --- the checks -----------------------------------------------------------

fn check_head(f: &mut Findings, b: &InteractiveBundle)
    requires
        old(f).wf(),
    ensures
        final(f).wf(),
        final(f).log@ == old(f).log@ + head_findings(*b),
{
    let ghost start = f.log@;
    let init = b.manifest.initial_segment.as_str();
    let missing = !contains_key(&b.manifest.segments, init);
    f.err_when(missing, text_q1("initialSegment ", init, " not in segments"));
    let ghost mid = f.log@;
    match (b.manifest.viewable_id, &b.info_video_id) {
        (Some(vid), Some(info)) => {
            let mut v = String::new();
            push_decimal_i64(&mut v, vid);
            assert(v@ =~= decimal_int(vid as int));
            let differs = !str_eq(v.as_str(), info.as_str());
            let mut m = String::new();
            push_str(&mut m, "viewableId mismatch: manifest ");
            push_decimal_i64(&mut m, vid);
            push_str(&mut m, " vs info ");
            push_str(&mut m, info.as_str());
            f.warn_when(differs, m);
        },
        _ => {},
    }
    proof {
        assert(f.log@ =~= start + head_findings(*b));
    }
}

fn check_seg_negative(f: &mut Findings, id: &str, seg: &ManifestSegment)
    requires
        old(f).wf(),
    ensures
        final(f).wf(),
        final(f).log@ == old(f).log@ + seg_negative(id@, *seg),
{
    proof {
        reveal(seg_negative);
    }
    let st = seg.start_time_ms;
    let mut m = text_q1("segment ", id, " has negative startTimeMs ");
    push_decimal_i64(&mut m, st);
    f.err_when(st < 0, m);
}

fn check_seg_range(f: &mut Findings, id: &str, seg: &ManifestSegment)
    requires
        old(f).wf(),
    ensures
        final(f).wf(),
        final(f).log@ == old(f).log@ + seg_range(id@, *seg),
{
    proof {
        reveal(seg_range);
    }
    let st = seg.start_time_ms;
    let has_successors = (match &seg.next {
        Some(n) => n.len() > 0,
        None => false,
    }) || seg.default_next.is_some();
    match seg.end_time_ms {
        Some(end) => {
            let mut m = text_q1("segment ", id, " has invalid time range ");
            push_decimal_i64(&mut m, st);
            push_str(&mut m, "..");
            push_decimal_i64(&mut m, end);
            f.err_when(end <= st, m);
        },
        None => {
            f.err_when(has_successors, text_q1("segment ", id, " has successors but no endTimeMs"));
        },
    }
}

fn check_seg_default_next(f: &mut Findings, b: &InteractiveBundle, id: &str, seg: &ManifestSegment)
    requires
        old(f).wf(),
    ensures
        final(f).wf(),
        final(f).log@ == old(f).log@ + seg_default_next(*b, id@, *seg),
{
    proof {
        reveal(seg_default_next);
    }
    match &seg.default_next {
        Some(nx) => {
            let unresolved = !contains_key(&b.manifest.segments, nx.as_str());
            f.err_when(unresolved, text_q2("segment ", id, " defaultNext ", nx.as_str(), " unresolved"));
        },
        None => {
            assert(old(f).log@ + seg_default_next(*b, id@, *seg) =~= old(f).log@);
        },
    }
}

fn check_seg_nexts(f: &mut Findings, b: &InteractiveBundle, id: &str, seg: &ManifestSegment)
    requires
        old(f).wf(),
    ensures
        final(f).wf(),
        final(f).log@ == old(f).log@ + seg_nexts(*b, id@, *seg),
{
    proof {
        reveal(seg_nexts);
    }
    let ghost s3 = f.log@;
    match &seg.next {
        Some(keys) => {
            let mut k: usize = 0;
            assert(s3 + next_findings(*b, id@, keys@, 0) =~= s3);
            while k < keys.len()
                invariant
                    k <= keys@.len(),
                    f.wf(),
                    f.log@ == s3 + next_findings(*b, id@, keys@, k as int),
                decreases keys.len() - k,
            {
                let unresolved = !contains_key(&b.manifest.segments, keys[k].as_str());
                f.err_when(unresolved, text_q2("segment ", id, " next target ", keys[k].as_str(), " unresolved"));
                proof {
                    assert(f.log@ =~= s3 + next_findings(*b, id@, keys@, k + 1));
                }
                k += 1;
            }
        },
        None => {
            assert(s3 + seg_nexts(*b, id@, *seg) =~= s3);
        },
    }
}

fn check_segment(f: &mut Findings, b: &InteractiveBundle, id: &str, seg: &ManifestSegment)
    requires
        old(f).wf(),
    ensures
        final(f).wf(),
        final(f).log@ == old(f).log@ + seg_findings(*b, id@, *seg),
{
    let ghost s0 = f.log@;
    check_seg_negative(f, id, seg);
    check_seg_range(f, id, seg);
    check_seg_default_next(f, b, id, seg);
    check_seg_nexts(f, b, id, seg);
    proof {
        assert(f.log@ =~= s0 + seg_findings(*b, id@, *seg));
    }
}

fn check_item(f: &mut Findings, b: &InteractiveBundle, gid: &str, it: &GroupItem)
    requires
        old(f).wf(),
    ensures
        final(f).wf(),
        final(f).log@ == old(f).log@ + item_findings(*b, gid@, *it),
{
    let ghost start = f.log@;
    match it {
        GroupItem::Ref(s) => {
            let unresolved = !contains_key(&b.manifest.segments, s.as_str()) && !contains_key(
                &b.moments.segment_groups,
                s.as_str(),
            );
            f.err_when(unresolved, text_q2("segmentGroup ", gid, " member ", s.as_str(), " unresolved"));
        },
        GroupItem::Segment { segment, precondition } => {
            let unresolved = !contains_key(&b.manifest.segments, segment.as_str());
            f.err_when(
                unresolved,
                text_q2("segmentGroup ", gid, " member segment ", segment.as_str(), " unresolved"),
            );
            let ghost mid = f.log@;
            match precondition {
                Some(p) => {
                    let missing = !contains_key(&b.moments.preconditions, p.as_str());
                    f.err_when(missing, text_q2("segmentGroup ", gid, " precondition ", p.as_str(), " unresolved"));
                },
                None => {},
            }
            proof {
                assert(f.log@ =~= start + item_findings(*b, gid@, *it));
            }
        },
        GroupItem::Group { segment_group } => {
            let unresolved = !contains_key(&b.moments.segment_groups, segment_group.as_str());
            f.err_when(
                unresolved,
                text_q2("segmentGroup ", gid, " nested group ", segment_group.as_str(), " unresolved"),
            );
        },
    }
}

fn check_groups(f: &mut Findings, b: &InteractiveBundle)
    requires
        old(f).wf(),
    ensures
        final(f).wf(),
        final(f).log@ == old(f).log@ + groups_findings(*b, b.moments.segment_groups@.len() as int),
{
    let ghost start = f.log@;
    let groups = &b.moments.segment_groups;
    let mut g: usize = 0;
    while g < groups.len()
        invariant
            g <= groups@.len(),
            groups == &b.moments.segment_groups,
            f.wf(),
            f.log@ == start + groups_findings(*b, g as int),
        decreases groups.len() - g,
    {
        let gid = groups[g].0.as_str();
        let items = &groups[g].1;
        let ghost before = f.log@;
        let mut k: usize = 0;
        while k < items.len()
            invariant
                k <= items@.len(),
                items == &groups@[g as int].1,
                gid@ == groups@[g as int].0@,
                f.wf(),
                f.log@ == before + items_findings(*b, gid@, items@, k as int),
            decreases items.len() - k,
        {
            check_item(f, b, gid, &items[k]);
            proof {
                assert(f.log@ =~= before + items_findings(*b, gid@, items@, k + 1));
            }
            k += 1;
        }
        proof {
            assert(f.log@ =~= start + groups_findings(*b, g + 1));
        }
        g += 1;
    }
}

/// `kind 'name' on 'sid'`.
fn who_text(kind: &str, name: &str, sid: &str) -> (r: String)
    ensures
        r@ == kind@ + quoted(name@) + " on "@ + quoted(sid@),
{
    let mut s = String::new();
    push_str(&mut s, kind);
    push_quoted(&mut s, name);
    push_str(&mut s, " on ");
    push_quoted(&mut s, sid);
    s
}

/// `who` followed by ` what 'x' unresolved`.
fn unresolved_text(who: &String, what: &str, x: &str) -> (r: String)
    ensures
        r@ == who@ + what@ + quoted(x@) + " unresolved"@,
{
    let mut m = who.clone();
    push_str(&mut m, what);
    push_quoted(&mut m, x);
    push_str(&mut m, " unresolved");
    m
}

fn check_choice_target(f: &mut Findings, b: &InteractiveBundle, sid: &str, c: &Choice, who: &String)
    requires
        old(f).wf(),
        who@ == choice_who(sid@, *c),
    ensures
        final(f).wf(),
        final(f).log@ == old(f).log@ + choice_target_findings(*b, sid@, *c),
{
    let ghost s0 = f.log@;
    proof {
        reveal(choice_target_findings);
    }
    match (&c.segment_id, &c.sg) {
        (Some(t), _) => {
            match lookup(&b.manifest.segments, t.as_str()) {
                Some(tseg) => {
                    match c.start_time_ms {
                        Some(claimed) => {
                            let mut m = who.clone();
                            push_str(&mut m, ": startTimeMs ");
                            push_decimal_i64(&mut m, claimed);
                            push_str(&mut m, " disagrees with segment ");
                            push_quoted(&mut m, t.as_str());
                            push_str(&mut m, " start ");
                            push_decimal_i64(&mut m, tseg.start_time_ms);
                            push_str(&mut m, " \u{2014} files may be a mismatched pair");
                            f.err_when(claimed != tseg.start_time_ms, m);
                        },
                        None => {
                            assert(s0 + choice_target_findings(*b, sid@, *c) =~= s0);
                        },
                    }
                },
                None => {
                    let unresolved = !contains_key(&b.moments.segment_groups, t.as_str());
                    f.err_when(unresolved, unresolved_text(who, " target ", t.as_str()));
                },
            }
        },
        (None, Some(g)) => {
            let unresolved = !contains_key(&b.moments.segment_groups, g.as_str());
            f.err_when(unresolved, unresolved_text(who, " segment group ", g.as_str()));
        },
        (None, None) => {
            let mut m = who.clone();
            push_str(&mut m, " has no segment target");
            f.add(false, m);
            assert(s0.push((false, m@)) =~= s0 + choice_target_findings(*b, sid@, *c));
        },
    }
}

fn check_choice(f: &mut Findings, b: &InteractiveBundle, sid: &str, c: &Choice)
    requires
        old(f).wf(),
    ensures
        final(f).wf(),
        final(f).log@ == old(f).log@ + choice_findings(*b, sid@, *c),
{
    let ghost s0 = f.log@;
    let name: &str = match &c.id {
        Some(i) => i.as_str(),
        None => match &c.text {
            Some(t) => t.as_str(),
            None => "?",
        },
    };
    let who = who_text("choice ", name, sid);
    check_choice_target(f, b, sid, c, &who);
    let ghost s1 = f.log@;
    match &c.precondition_id {
        Some(p) => {
            let missing = !contains_key(&b.moments.preconditions, p.as_str());
            f.err_when(missing, unresolved_text(&who, " preconditionId ", p.as_str()));
        },
        None => {},
    }
    proof {
        reveal(choice_pre_findings);
        if c.precondition_id is None {
            assert(s1 + choice_pre_findings(*b, sid@, *c) =~= s1);
        }
        assert(f.log@ =~= s0 + choice_findings(*b, sid@, *c));
    }
}

fn check_moment_window(f: &mut Findings, b: &InteractiveBundle, sid: &str, m: &Moment, who: &String)
    requires
        old(f).wf(),
        who@ == moment_who(sid@, *m),
    ensures
        final(f).wf(),
        final(f).log@ == old(f).log@ + moment_window_findings(*b, sid@, *m),
{
    let ghost s0 = f.log@;
    proof {
        reveal(moment_window_findings);
    }
    match (m.start_ms, m.end_ms) {
        (Some(st), Some(end)) => {
            let mut t = who.clone();
            push_str(&mut t, " has invalid window ");
            push_decimal_i64(&mut t, st);
            push_str(&mut t, "..");
            push_decimal_i64(&mut t, end);
            f.err_when(end <= st, t);
            let ghost s1 = f.log@;
            let label: &str = match &m.id {
                Some(i) => i.as_str(),
                None => "?",
            };
            match lookup(&b.manifest.segments, sid) {
                Some(seg) => {
                    let seg_end: i64 = match seg.end_time_ms {
                        Some(e) => e,
                        None => i64::MAX,
                    };
                    let mut t = text_q1("moment ", label, " window ");
                    push_decimal_i64(&mut t, st);
                    push_str(&mut t, "..");
                    push_decimal_i64(&mut t, end);
                    push_str(&mut t, " outside segment ");
                    push_quoted(&mut t, sid);
                    push_str(&mut t, " ");
                    push_decimal_i64(&mut t, seg.start_time_ms);
                    push_str(&mut t, "..");
                    push_opt_debug(&mut t, seg.end_time_ms);
                    f.warn_when(st < seg.start_time_ms || end > seg_end, t);
                },
                None => {
                    assert(s1 + Seq::<Finding>::empty() =~= s1);
                },
            }
            assert(f.log@ =~= s0 + moment_window_findings(*b, sid@, *m));
        },
        _ => {
            assert(s0 + moment_window_findings(*b, sid@, *m) =~= s0);
        },
    }
}

fn check_moment_pre(f: &mut Findings, b: &InteractiveBundle, sid: &str, m: &Moment, who: &String)
    requires
        old(f).wf(),
        who@ == moment_who(sid@, *m),
    ensures
        final(f).wf(),
        final(f).log@ == old(f).log@ + moment_pre_findings(*b, sid@, *m),
{
    proof {
        reveal(moment_pre_findings);
    }
    match &m.precondition_id {
        Some(p) => {
            let missing = !contains_key(&b.moments.preconditions, p.as_str());
            f.err_when(missing, unresolved_text(who, " preconditionId ", p.as_str()));
        },
        None => {
            assert(old(f).log@ + moment_pre_findings(*b, sid@, *m) =~= old(f).log@);
        },
    }
}

fn check_moment_dci(f: &mut Findings, sid: &str, m: &Moment, who: &String)
    requires
        old(f).wf(),
        who@ == moment_who(sid@, *m),
    ensures
        final(f).wf(),
        final(f).log@ == old(f).log@ + moment_dci_findings(sid@, *m),
{
    proof {
        reveal(moment_dci_findings);
    }
    let n: usize = match &m.choices {
        Some(c) => c.len(),
        None => 0,
    };
    match m.default_choice_index {
        Some(idx) => {
            let out = idx < 0 || (n > 0 && (idx as i128) >= (n as i128));
            let mut t = who.clone();
            push_str(&mut t, " defaultChoiceIndex ");
            push_decimal_i64(&mut t, idx);
            push_str(&mut t, " out of range (choices: ");
            crate::text::push_decimal(&mut t, n as u64);
            push_str(&mut t, ")");
            f.err_when(out, t);
        },
        None => {
            assert(old(f).log@ + moment_dci_findings(sid@, *m) =~= old(f).log@);
        },
    }
}

fn check_moment_timeout(f: &mut Findings, b: &InteractiveBundle, sid: &str, m: &Moment, who: &String)
    requires
        old(f).wf(),
        who@ == moment_who(sid@, *m),
    ensures
        final(f).wf(),
        final(f).log@ == old(f).log@ + moment_timeout_findings(*b, sid@, *m),
{
    proof {
        reveal(moment_timeout_findings);
    }
    match &m.timeout_segment {
        Some(ts) => match &ts.segment_id {
            Some(tg) => {
                let unresolved = !contains_key(&b.manifest.segments, tg.as_str()) && !contains_key(
                    &b.moments.segment_groups,
                    tg.as_str(),
                );
                f.err_when(unresolved, unresolved_text(who, " timeoutSegment ", tg.as_str()));
            },
            None => {
                assert(old(f).log@ + moment_timeout_findings(*b, sid@, *m) =~= old(f).log@);
            },
        },
        None => {
            assert(old(f).log@ + moment_timeout_findings(*b, sid@, *m) =~= old(f).log@);
        },
    }
}

fn check_moment_choices(f: &mut Findings, b: &InteractiveBundle, sid: &str, m: &Moment)
    requires
        old(f).wf(),
    ensures
        final(f).wf(),
        final(f).log@ == old(f).log@ + moment_choice_findings(*b, sid@, *m),
{
    proof {
        reveal(moment_choice_findings);
    }
    let ghost s4 = f.log@;
    match &m.choices {
        Some(cs) => {
            let mut k: usize = 0;
            assert(s4 + choices_findings(*b, sid@, cs@, 0) =~= s4);
            while k < cs.len()
                invariant
                    k <= cs@.len(),
                    f.wf(),
                    f.log@ == s4 + choices_findings(*b, sid@, cs@, k as int),
                decreases cs.len() - k,
            {
                check_choice(f, b, sid, &cs[k]);
                proof {
                    assert(f.log@ =~= s4 + choices_findings(*b, sid@, cs@, k + 1));
                }
                k += 1;
            }
        },
        None => {
            assert(s4 + moment_choice_findings(*b, sid@, *m) =~= s4);
        },
    }
}

fn check_moment(f: &mut Findings, b: &InteractiveBundle, sid: &str, m: &Moment)
    requires
        old(f).wf(),
    ensures
        final(f).wf(),
        final(f).log@ == old(f).log@ + moment_findings(*b, sid@, *m),
{
    let ghost s0 = f.log@;
    let label: &str = match &m.id {
        Some(i) => i.as_str(),
        None => "?",
    };
    let who = who_text("moment ", label, sid);
    check_moment_pre(f, b, sid, m, &who);
    check_moment_window(f, b, sid, m, &who);
    check_moment_dci(f, sid, m, &who);
    check_moment_timeout(f, b, sid, m, &who);
    check_moment_choices(f, b, sid, m);
    proof {
        assert(f.log@ =~= s0 + moment_findings(*b, sid@, *m));
    }
}

fn check_segments(f: &mut Findings, b: &InteractiveBundle)
    requires
        old(f).wf(),
    ensures
        final(f).wf(),
        final(f).log@ == old(f).log@ + segs_findings(*b, b.manifest.segments@.len() as int),
{
    let ghost start = f.log@;
    let segs = &b.manifest.segments;
    let mut i: usize = 0;
    assert(start + segs_findings(*b, 0) =~= start);
    while i < segs.len()
        invariant
            i <= segs@.len(),
            segs == &b.manifest.segments,
            f.wf(),
            f.log@ == start + segs_findings(*b, i as int),
        decreases segs.len() - i,
    {
        check_segment(f, b, segs[i].0.as_str(), &segs[i].1);
        proof {
            assert(f.log@ =~= start + segs_findings(*b, i + 1));
        }
        i += 1;
    }
}

fn check_moment_segments(f: &mut Findings, b: &InteractiveBundle)
    requires
        old(f).wf(),
    ensures
        final(f).wf(),
        final(f).log@ == old(f).log@ + msegs_findings(*b, b.moments.moments_by_segment@.len() as int),
{
    let ghost start = f.log@;
    let mbs = &b.moments.moments_by_segment;
    let mut i: usize = 0;
    assert(start + msegs_findings(*b, 0) =~= start);
    while i < mbs.len()
        invariant
            i <= mbs@.len(),
            mbs == &b.moments.moments_by_segment,
            f.wf(),
            f.log@ == start + msegs_findings(*b, i as int),
        decreases mbs.len() - i,
    {
        let sid = mbs[i].0.as_str();
        let ms = &mbs[i].1;
        let ghost s1 = f.log@;
        let unknown = !contains_key(&b.manifest.segments, sid);
        f.err_when(unknown, text_q1("momentsBySegment key ", sid, " not in manifest segments"));
        let ghost s2 = f.log@;
        let mut k: usize = 0;
        assert(s2 + moments_findings(*b, sid@, ms@, 0) =~= s2);
        while k < ms.len()
            invariant
                k <= ms@.len(),
                ms == &mbs@[i as int].1,
                f.wf(),
                f.log@ == s2 + moments_findings(*b, sid@, ms@, k as int),
            decreases ms.len() - k,
        {
            check_moment(f, b, sid, &ms[k]);
            proof {
                assert(f.log@ =~= s2 + moments_findings(*b, sid@, ms@, k + 1));
            }
            k += 1;
        }
        proof {
            assert(f.log@ =~= start + msegs_findings(*b, i + 1));
        }
        i += 1;
    }
}

/// Cross-check the two files of `bundle` as one graph. The errors and
/// warnings are the messages of `findings(bundle)`, in order; the counts
/// are those of the files (the moment and choice totals capped at the
/// largest `usize`), and `max_end_time_ms` is the latest segment end (or
/// start, for a terminal segment), at least 0.
pub fn validate(bundle: &InteractiveBundle) -> (r: ValidationReport)
    ensures
        strs(r.errors@) == errors_of(findings(*bundle)),
        strs(r.warnings@) == warnings_of(findings(*bundle)),
        r.segment_count == bundle.manifest.segments@.len(),
        r.moment_segment_count == bundle.moments.moments_by_segment@.len(),
        r.moment_count == capped(moments_upto(bundle.moments.moments_by_segment@, bundle.moments.moments_by_segment@.len() as int)),
        r.choice_count == capped(choices_upto(bundle.moments.moments_by_segment@, bundle.moments.moments_by_segment@.len() as int)),
        r.precondition_count == bundle.moments.preconditions@.len(),
        r.segment_group_count == bundle.moments.segment_groups@.len(),
        r.max_end_time_ms == max_end_upto(bundle.manifest.segments@, bundle.manifest.segments@.len() as int),
{
    let mut f = Findings::new();
    check_head(&mut f, bundle);
    let ghost s1 = f.log@;
    check_segments(&mut f, bundle);
    let ghost s2 = f.log@;
    check_groups(&mut f, bundle);
    let ghost s3 = f.log@;
    check_moment_segments(&mut f, bundle);
    proof {
        assert(f.log@ =~= findings(*bundle));
    }
    // The latest end.
    let segs = &bundle.manifest.segments;
    let mut max_end: i64 = 0;
    let mut i: usize = 0;
    while i < segs.len()
        invariant
            i <= segs@.len(),
            max_end == max_end_upto(segs@, i as int),
        decreases segs.len() - i,
    {
        let v = match segs[i].1.end_time_ms {
            Some(e) => e,
            None => segs[i].1.start_time_ms,
        };
        if v > max_end {
            max_end = v;
        }
        i += 1;
    }
    // The totals.
    let mbs = &bundle.moments.moments_by_segment;
    let mut moment_count: usize = 0;
    let mut choice_count: usize = 0;
    let mut j: usize = 0;
    while j < mbs.len()
        invariant
            j <= mbs@.len(),
            moment_count == capped(moments_upto(mbs@, j as int)),
            choice_count == capped(choices_upto(mbs@, j as int)),
        decreases mbs.len() - j,
    {
        let ms = &mbs[j].1;
        moment_count = moment_count.saturating_add(ms.len());
        let ghost before = choices_upto(mbs@, j as int);
        let mut k: usize = 0;
        while k < ms.len()
            invariant
                k <= ms@.len(),
                ms == &mbs@[j as int].1,
                choice_count == capped(before + choices_in(ms@, k as int)),
                before >= 0,
            decreases ms.len() - k,
        {
            let c = match &ms[k].choices {
                Some(c) => c.len(),
                None => 0,
            };
            proof {
                lemma_choices_in_nonneg(ms@, k as int);
            }
            choice_count = choice_count.saturating_add(c);
            k += 1;
        }
        proof {
            lemma_moments_upto_nonneg(mbs@, j as int);
        }
        j += 1;
    }
    ValidationReport {
        segment_count: bundle.manifest.segments.len(),
        moment_segment_count: mbs.len(),
        moment_count,
        choice_count,
        precondition_count: bundle.moments.preconditions.len(),
        segment_group_count: bundle.moments.segment_groups.len(),
        max_end_time_ms: max_end,
        errors: f.errors,
        warnings: f.warnings,
    }
}

proof fn lemma_choices_in_nonneg(ms: Seq<Moment>, n: int)
    ensures
        choices_in(ms, n) >= 0,
    decreases n,
{
    if n > 0 && n <= ms.len() {
        lemma_choices_in_nonneg(ms, n - 1);
    }
}

proof fn lemma_moments_upto_nonneg(mbs: Seq<(String, Vec<Moment>)>, n: int)
    ensures
        moments_upto(mbs, n) >= 0,
        choices_upto(mbs, n) >= 0,
    decreases n,
{
    if n > 0 && n <= mbs.len() {
        lemma_moments_upto_nonneg(mbs, n - 1);
        lemma_choices_in_nonneg(mbs[n - 1].1@, mbs[n - 1].1@.len() as int);
    }
}

// --- what a clean report guarantees ---------------------------------------

proof fn lemma_errors_of_concat(a: Seq<Finding>, c: Seq<Finding>)
    ensures
        errors_of(a + c) == errors_of(a) + errors_of(c),
    decreases c.len(),
{
    if c.len() == 0 {
        assert(a + c =~= a);
        assert(errors_of(a) + errors_of(c) =~= errors_of(a));
    } else {
        lemma_errors_of_concat(a, c.drop_last());
        assert((a + c).drop_last() =~= a + c.drop_last());
        assert((a + c).last() == c.last());
        if c.last().0 {
            assert(errors_of(a) + errors_of(c) =~= (errors_of(a) + errors_of(c.drop_last())).push(c.last().1));
        } else {
            assert(errors_of(a) + errors_of(c) =~= errors_of(a) + errors_of(c.drop_last()));
        }
    }
}

/// No error among `a + c` means none among `a` and none among `c`.
proof fn lemma_clean_parts(a: Seq<Finding>, c: Seq<Finding>)
    requires
        errors_of(a + c).len() == 0,
    ensures
        errors_of(a).len() == 0,
        errors_of(c).len() == 0,
{
    lemma_errors_of_concat(a, c);
}

proof fn lemma_err_if_clean(c: bool, msg: Seq<char>)
    requires
        errors_of(err_if(c, msg)).len() == 0,
    ensures
        !c,
{
    if c {
        assert(err_if(c, msg).drop_last() =~= Seq::<Finding>::empty());
    }
}

/// Every reference that routing can follow names something that exists:
/// successors and group members that are segments are segments, and group
/// members that may be groups are segments or groups.
pub open spec fn routing_closed(b: InteractiveBundle) -> bool {
    let segs = b.manifest.segments@;
    let groups = b.moments.segment_groups@;
    &&& forall|i: int| #![trigger segs[i]] 0 <= i < segs.len() ==> match segs[i].1.default_next {
        Some(n) => has_key(segs, n@),
        None => true,
    }
    &&& forall|i: int, k: int| #![trigger segs[i], segs[i].1.next->0@[k]]
        0 <= i < segs.len() && segs[i].1.next is Some && 0 <= k < segs[i].1.next->0@.len() ==> has_key(
            segs,
            segs[i].1.next->0@[k]@,
        )
    &&& forall|g: int, k: int| #![trigger groups[g].1@[k]]
        0 <= g < groups.len() && 0 <= k < groups[g].1@.len() ==> match groups[g].1@[k] {
            GroupItem::Ref(s) => has_key(segs, s@) || has_key(groups, s@),
            GroupItem::Segment { segment, .. } => has_key(segs, segment@),
            GroupItem::Group { segment_group } => has_key(groups, segment_group@),
        }
}

proof fn lemma_next_clean(b: InteractiveBundle, id: Seq<char>, keys: Seq<String>, n: int)
    requires
        errors_of(next_findings(b, id, keys, n)).len() == 0,
        0 <= n <= keys.len(),
    ensures
        forall|k: int| 0 <= k < n ==> has_key(b.manifest.segments@, #[trigger] keys[k]@),
    decreases n,
{
    if n > 0 {
        let msg = "segment "@ + quoted(id) + " next target "@ + quoted(keys[n - 1]@) + " unresolved"@;
        lemma_clean_parts(next_findings(b, id, keys, n - 1), err_if(!has_key(b.manifest.segments@, keys[n - 1]@), msg));
        lemma_err_if_clean(!has_key(b.manifest.segments@, keys[n - 1]@), msg);
        lemma_next_clean(b, id, keys, n - 1);
    }
}

proof fn lemma_segs_clean(b: InteractiveBundle, n: int)
    requires
        errors_of(segs_findings(b, n)).len() == 0,
        0 <= n <= b.manifest.segments@.len(),
    ensures
        forall|i: int| #![trigger b.manifest.segments@[i]] 0 <= i < n ==> match b.manifest.segments@[i].1.default_next {
            Some(x) => has_key(b.manifest.segments@, x@),
            None => true,
        },
        forall|i: int, k: int| #![trigger b.manifest.segments@[i], b.manifest.segments@[i].1.next->0@[k]]
            0 <= i < n && b.manifest.segments@[i].1.next is Some && 0 <= k < b.manifest.segments@[i].1.next->0@.len()
            ==> has_key(b.manifest.segments@, b.manifest.segments@[i].1.next->0@[k]@),
    decreases n,
{
    if n > 0 {
        let segs = b.manifest.segments@;
        let id = segs[n - 1].0@;
        let seg = segs[n - 1].1;
        lemma_clean_parts(segs_findings(b, n - 1), seg_findings(b, id, seg));
        lemma_segs_clean(b, n - 1);
        let p1 = seg_negative(id, seg) + seg_range(id, seg);
        lemma_clean_parts(p1 + seg_default_next(b, id, seg), seg_nexts(b, id, seg));
        lemma_clean_parts(p1, seg_default_next(b, id, seg));
        reveal(seg_default_next);
        reveal(seg_nexts);
        match seg.default_next {
            Some(x) => {
                lemma_err_if_clean(
                    !has_key(segs, x@),
                    "segment "@ + quoted(id) + " defaultNext "@ + quoted(x@) + " unresolved"@,
                );
            },
            None => {},
        }
        match seg.next {
            Some(keys) => {
                lemma_next_clean(b, id, keys@, keys@.len() as int);
            },
            None => {},
        }
    }
}

proof fn lemma_items_clean(b: InteractiveBundle, gid: Seq<char>, items: Seq<GroupItem>, n: int)
    requires
        errors_of(items_findings(b, gid, items, n)).len() == 0,
        0 <= n <= items.len(),
    ensures
        forall|k: int| #![trigger items[k]] 0 <= k < n ==> match items[k] {
            GroupItem::Ref(s) => has_key(b.manifest.segments@, s@) || has_key(b.moments.segment_groups@, s@),
            GroupItem::Segment { segment, .. } => has_key(b.manifest.segments@, segment@),
            GroupItem::Group { segment_group } => has_key(b.moments.segment_groups@, segment_group@),
        },
    decreases n,
{
    if n > 0 {
        lemma_clean_parts(items_findings(b, gid, items, n - 1), item_findings(b, gid, items[n - 1]));
        lemma_items_clean(b, gid, items, n - 1);
        let segs = b.manifest.segments@;
        let groups = b.moments.segment_groups@;
        match items[n - 1] {
            GroupItem::Ref(s) => {
                lemma_err_if_clean(
                    !has_key(segs, s@) && !has_key(groups, s@),
                    "segmentGroup "@ + quoted(gid) + " member "@ + quoted(s@) + " unresolved"@,
                );
            },
            GroupItem::Segment { segment, precondition } => {
                let first = err_if(
                    !has_key(segs, segment@),
                    "segmentGroup "@ + quoted(gid) + " member segment "@ + quoted(segment@) + " unresolved"@,
                );
                let second = match precondition {
                    Some(p) => err_if(
                        !has_key(b.moments.preconditions@, p@),
                        "segmentGroup "@ + quoted(gid) + " precondition "@ + quoted(p@) + " unresolved"@,
                    ),
                    None => Seq::empty(),
                };
                lemma_clean_parts(first, second);
                lemma_err_if_clean(
                    !has_key(segs, segment@),
                    "segmentGroup "@ + quoted(gid) + " member segment "@ + quoted(segment@) + " unresolved"@,
                );
            },
            GroupItem::Group { segment_group } => {
                lemma_err_if_clean(
                    !has_key(groups, segment_group@),
                    "segmentGroup "@ + quoted(gid) + " nested group "@ + quoted(segment_group@) + " unresolved"@,
                );
            },
        }
    }
}

proof fn lemma_groups_clean(b: InteractiveBundle, n: int)
    requires
        errors_of(groups_findings(b, n)).len() == 0,
        0 <= n <= b.moments.segment_groups@.len(),
    ensures
        forall|g: int, k: int| #![trigger b.moments.segment_groups@[g].1@[k]]
            0 <= g < n && 0 <= k < b.moments.segment_groups@[g].1@.len() ==> match b.moments.segment_groups@[g].1@[k] {
                GroupItem::Ref(s) => has_key(b.manifest.segments@, s@) || has_key(b.moments.segment_groups@, s@),
                GroupItem::Segment { segment, .. } => has_key(b.manifest.segments@, segment@),
                GroupItem::Group { segment_group } => has_key(b.moments.segment_groups@, segment_group@),
            },
    decreases n,
{
    if n > 0 {
        let groups = b.moments.segment_groups@;
        lemma_clean_parts(
            groups_findings(b, n - 1),
            items_findings(b, groups[n - 1].0@, groups[n - 1].1@, groups[n - 1].1@.len() as int),
        );
        lemma_groups_clean(b, n - 1);
        lemma_items_clean(b, groups[n - 1].0@, groups[n - 1].1@, groups[n - 1].1@.len() as int);
        assert forall|g: int, k: int| #![trigger groups[g].1@[k]]
            0 <= g < n && 0 <= k < groups[g].1@.len() implies match groups[g].1@[k] {
                GroupItem::Ref(s) => has_key(b.manifest.segments@, s@) || has_key(groups, s@),
                GroupItem::Segment { segment, .. } => has_key(b.manifest.segments@, segment@),
                GroupItem::Group { segment_group } => has_key(groups, segment_group@),
            } by {
            if g == n - 1 {
                assert(groups[n - 1].1@[k] == groups[g].1@[k]);
            }
        }
    }
}

/// A report without errors means routing can only follow references that
/// exist.
pub proof fn lemma_clean_report_closes_routing(b: InteractiveBundle)
    requires
        errors_of(findings(b)).len() == 0,
    ensures
        routing_closed(b),
{
    let h = head_findings(b);
    let sf = segs_findings(b, b.manifest.segments@.len() as int);
    let gf = groups_findings(b, b.moments.segment_groups@.len() as int);
    let mf = msegs_findings(b, b.moments.moments_by_segment@.len() as int);
    lemma_clean_parts(h + sf + gf, mf);
    lemma_clean_parts(h + sf, gf);
    lemma_clean_parts(h, sf);
    lemma_segs_clean(b, b.manifest.segments@.len() as int);
    lemma_groups_clean(b, b.moments.segment_groups@.len() as int);
}

proof fn lemma_min_key_member(keys: Seq<String>, n: int)
    requires
        0 <= n <= keys.len(),
    ensures
        min_key_upto(keys, n) matches Some(m) ==> exists|k: int| 0 <= k < n && #[trigger] keys[k]@ == m,
    decreases n,
{
    if n > 0 {
        lemma_min_key_member(keys, n - 1);
        assert(keys[n - 1]@ == keys[n - 1]@);
    }
}

/// In a closed routing graph, whatever a reference, a group or a group
/// member resolves to is a segment.
proof fn lemma_routes_to_segments(b: InteractiveBundle, g: Map<Seq<char>, Json>, p: Map<Seq<char>, Json>, depth: nat)
    requires
        routing_closed(b),
    ensures
        forall|name: Seq<char>| #[trigger] ref_spec(b, g, p, name, depth) matches Some(t) ==> has_key(b.manifest.segments@, t),
        forall|name: Seq<char>| #[trigger] group_spec(b, g, p, name, depth) matches Some(t) ==> has_key(b.manifest.segments@, t),
    decreases depth,
{
    let segs = b.manifest.segments@;
    let groups = b.moments.segment_groups@;
    if depth > 0 {
        lemma_routes_to_segments(b, g, p, (depth - 1) as nat);
    }
    assert forall|name: Seq<char>| (#[trigger] group_spec(b, g, p, name, depth)) is Some implies has_key(segs, group_spec(b, g, p, name, depth)->0) by {
        if depth > 0 {
            if let Some(gi) = crate::keyed::find_key(groups, name) {
                crate::keyed::lemma_has_key(groups, name);
                let items = groups[gi].1@;
                lemma_items_to_segments(b, g, p, items, 0, depth, gi);
            }
        }
    }
    assert forall|name: Seq<char>| (#[trigger] ref_spec(b, g, p, name, depth)) is Some implies has_key(segs, ref_spec(b, g, p, name, depth)->0) by {
        if !has_key(segs, name) {
            assert(group_spec(b, g, p, name, depth) is Some);
        }
    }
}

proof fn lemma_items_to_segments(b: InteractiveBundle, g: Map<Seq<char>, Json>, p: Map<Seq<char>, Json>, items: Seq<GroupItem>, i: int, depth: nat, gi: int)
    requires
        routing_closed(b),
        depth > 0,
        0 <= gi < b.moments.segment_groups@.len(),
        items == b.moments.segment_groups@[gi].1@,
        0 <= i,
        forall|name: Seq<char>| #[trigger] ref_spec(b, g, p, name, (depth - 1) as nat) matches Some(t) ==> has_key(b.manifest.segments@, t),
        forall|name: Seq<char>| #[trigger] group_spec(b, g, p, name, (depth - 1) as nat) matches Some(t) ==> has_key(b.manifest.segments@, t),
    ensures
        items_spec(b, g, p, items, i, depth) matches Some(t) ==> has_key(b.manifest.segments@, t),
    decreases items.len() - i,
{
    if i < items.len() {
        let it = items[i];
        assert(b.moments.segment_groups@[gi].1@[i] == it);
        match it {
            GroupItem::Ref(s) => {
                assert(ref_spec(b, g, p, s@, (depth - 1) as nat) matches Some(t) ==> has_key(b.manifest.segments@, t));
            },
            GroupItem::Segment { segment, .. } => {
                assert(has_key(b.manifest.segments@, segment@));
            },
            GroupItem::Group { segment_group } => {
                assert(group_spec(b, g, p, segment_group@, (depth - 1) as nat) matches Some(t) ==> has_key(b.manifest.segments@, t));
            },
        }
        assert(item_spec(b, g, p, it, depth) matches Some(t) ==> has_key(b.manifest.segments@, t));
        lemma_items_to_segments(b, g, p, items, i + 1, depth, gi);
    }
}

/// A bundle whose report has no errors never routes playback to a segment
/// the manifest lacks: wherever a segment end leads — a committed choice,
/// group routing, `defaultNext` or a `next` successor — is a segment.
pub proof fn law_clean_bundle_routes_to_segments(
    b: InteractiveBundle,
    g: Map<Seq<char>, Json>,
    p: Map<Seq<char>, Json>,
    pending: Option<Seq<char>>,
    current: Seq<char>,
)
    requires
        errors_of(findings(b)).len() == 0,
    ensures
        peek_spec(b, g, p, pending, current) matches Some(t) ==> has_key(b.manifest.segments@, t),
{
    lemma_clean_report_closes_routing(b);
    lemma_routes_to_segments(b, g, p, ROUTING_DEPTH as nat);
    let segs = b.manifest.segments@;
    if let Some(t) = pending {
        assert(ref_spec(b, g, p, t, ROUTING_DEPTH as nat) matches Some(x) ==> has_key(segs, x));
    }
    assert(group_spec(b, g, p, current, ROUTING_DEPTH as nat) matches Some(x) ==> has_key(segs, x));
    if let Some(i) = crate::keyed::find_key(segs, current) {
        crate::keyed::lemma_has_key(segs, current);
        let seg = segs[i].1;
        assert(segs[i] == segs[i]);
        if let Some(keys) = seg.next {
            lemma_min_key_member(keys@, keys@.len() as int);
            if let Some(m) = min_key_upto(keys@, keys@.len() as int) {
                let k = choose|k: int| 0 <= k < keys@.len() && #[trigger] keys@[k]@ == m;
                assert(segs[i].1.next->0@[k] == keys@[k]);
            }
        }
    }
}

} // verus!
