//! The decision core of interactive playback: state scopes, preconditions,
//! impression writes, and where playback goes when a segment ends.
//!
//! `globalState` lives for one playthrough; `persistentState` survives
//! across playthroughs. A committed choice target wins at the segment end,
//! then segment-group routing keyed by the current segment, then the
//! segment's `defaultNext`, then its first `next` successor (by name).

use vstd::prelude::*;
use crate::expr::{eval_spec, eval_truthy};
use crate::interactive::{GroupItem, InteractiveBundle, Moment, ManifestSegment};
use crate::json::{member_spec, truthy_spec, entry_views, lemma_entry_views, Json, JsonValue};
use crate::keyed::{contains_key, find_key, has_key, lemma_first_key_from, lookup};
use crate::state::{any_change, insert_all, keys_unique, lemma_insert_all_twice, lemma_no_change_again, StateMap};
use crate::text::{chars_of, str_eq};
use crate::engine::{ChoiceSnapshot, JumpMetrics, OpenChoice};

verus! {

/// How deep segment-group references are followed.
pub const ROUTING_DEPTH: u8 = 8;

pub open spec fn opt_str(o: Option<String>) -> Option<Seq<char>> {
    match o {
        Some(s) => Some(s@),
        None => None,
    }
}

/// Precondition `id` of the bundle holds over the state (unknown ids pass).
pub open spec fn precondition_spec(b: InteractiveBundle, g: Map<Seq<char>, Json>, p: Map<Seq<char>, Json>, id: Seq<char>) -> bool {
    match find_key(b.moments.preconditions@, id) {
        Some(i) => truthy_spec(eval_spec(b.moments.preconditions@[i].1@, g, p)),
        None => true,
    }
}

/// A moment's inline precondition and its named precondition both hold.
pub open spec fn moment_passes_spec(b: InteractiveBundle, g: Map<Seq<char>, Json>, p: Map<Seq<char>, Json>, m: Moment) -> bool {
    &&& match m.precondition {
        Some(e) => truthy_spec(eval_spec(e@, g, p)),
        None => true,
    }
    &&& match m.precondition_id {
        Some(id) => precondition_spec(b, g, p, id@),
        None => true,
    }
}

/// A jump reference: a segment id reads as itself, anything else is routed
/// as a segment group.
pub open spec fn ref_spec(b: InteractiveBundle, g: Map<Seq<char>, Json>, p: Map<Seq<char>, Json>, name: Seq<char>, depth: nat) -> Option<Seq<char>>
    decreases depth, 2int, 0int,
{
    if has_key(b.manifest.segments@, name) {
        Some(name)
    } else {
        group_spec(b, g, p, name, depth)
    }
}

/// The first member of group `name` that resolves, with `depth` levels of
/// nesting left.
pub open spec fn group_spec(b: InteractiveBundle, g: Map<Seq<char>, Json>, p: Map<Seq<char>, Json>, name: Seq<char>, depth: nat) -> Option<Seq<char>>
    decreases depth, 1int, 0int,
{
    if depth == 0 {
        None
    } else {
        match find_key(b.moments.segment_groups@, name) {
            Some(i) => items_spec(b, g, p, b.moments.segment_groups@[i].1@, 0, depth),
            None => None,
        }
    }
}

/// What member `it` of a group at `depth` resolves to.
pub open spec fn item_spec(b: InteractiveBundle, g: Map<Seq<char>, Json>, p: Map<Seq<char>, Json>, it: GroupItem, depth: nat) -> Option<Seq<char>>
    decreases depth, 0int, 0int,
{
    if depth == 0 {
        None
    } else {
        match it {
            GroupItem::Ref(s) => ref_spec(b, g, p, s@, (depth - 1) as nat),
            GroupItem::Segment { segment, precondition } => {
                let passes = match precondition {
                    Some(pid) => precondition_spec(b, g, p, pid@),
                    None => true,
                };
                if passes {
                    Some(segment@)
                } else {
                    None
                }
            },
            GroupItem::Group { segment_group } => group_spec(b, g, p, segment_group@, (depth - 1) as nat),
        }
    }
}

/// The first of `items[i..]` that resolves.
pub open spec fn items_spec(b: InteractiveBundle, g: Map<Seq<char>, Json>, p: Map<Seq<char>, Json>, items: Seq<GroupItem>, i: int, depth: nat) -> Option<Seq<char>>
    decreases depth, 0int, items.len() - i + 1,
{
    if depth == 0 || i < 0 || i >= items.len() {
        None
    } else {
        let hit = item_spec(b, g, p, items[i], depth);
        if hit is Some {
            hit
        } else {
            items_spec(b, g, p, items, i + 1, depth)
        }
    }
}

/// `a` sorts strictly before `b`, comparing characters from index `i` on
/// (a proper prefix sorts first).
pub open spec fn str_lt_from(a: Seq<char>, b: Seq<char>, i: int) -> bool
    decreases a.len() - i,
{
    if i < 0 || i >= a.len() {
        0 <= i < b.len()
    } else if i >= b.len() {
        false
    } else if a[i] != b[i] {
        (a[i] as int) < (b[i] as int)
    } else {
        str_lt_from(a, b, i + 1)
    }
}

/// `a` sorts strictly before `b` in `String` order.
pub open spec fn str_lt(a: Seq<char>, b: Seq<char>) -> bool {
    str_lt_from(a, b, 0)
}

pub proof fn lemma_str_lt_from_asym(a: Seq<char>, b: Seq<char>, i: int)
    requires
        0 <= i,
    ensures
        !(str_lt_from(a, b, i) && str_lt_from(b, a, i)),
        !str_lt_from(a, a, i),
    decreases a.len() - i,
{
    if i < a.len() {
        lemma_str_lt_from_asym(a, b, i + 1);
    }
}

pub proof fn lemma_str_lt_from_total(a: Seq<char>, b: Seq<char>, i: int)
    requires
        0 <= i,
        a.subrange(i, a.len() as int) != b.subrange(i, b.len() as int),
        i <= a.len(),
        i <= b.len(),
    ensures
        str_lt_from(a, b, i) || str_lt_from(b, a, i),
    decreases a.len() - i,
{
    if i < a.len() && i < b.len() && a[i] == b[i] {
        if a.subrange(i + 1, a.len() as int) == b.subrange(i + 1, b.len() as int) {
            assert(a.subrange(i, a.len() as int) =~= seq![a[i]] + a.subrange(i + 1, a.len() as int));
            assert(b.subrange(i, b.len() as int) =~= seq![b[i]] + b.subrange(i + 1, b.len() as int));
        }
        lemma_str_lt_from_total(a, b, i + 1);
    } else if i >= a.len() && i >= b.len() {
        assert(a.subrange(i, a.len() as int) =~= b.subrange(i, b.len() as int));
    }
}

pub proof fn lemma_str_lt_from_trans(a: Seq<char>, b: Seq<char>, c: Seq<char>, i: int)
    requires
        0 <= i,
        str_lt_from(a, b, i),
        str_lt_from(b, c, i),
    ensures
        str_lt_from(a, c, i),
    decreases a.len() - i,
{
    if i < a.len() && a[i] == b[i] && b[i] == c[i] {
        lemma_str_lt_from_trans(a, b, c, i + 1);
    }
}

/// `String` order is a strict total order.
pub proof fn lemma_str_lt_order(a: Seq<char>, b: Seq<char>, c: Seq<char>)
    ensures
        !str_lt(a, a),
        !(str_lt(a, b) && str_lt(b, a)),
        a != b ==> str_lt(a, b) || str_lt(b, a),
        str_lt(a, b) && str_lt(b, c) ==> str_lt(a, c),
{
    lemma_str_lt_from_asym(a, b, 0);
    if a != b {
        assert(a.subrange(0, a.len() as int) =~= a);
        assert(b.subrange(0, b.len() as int) =~= b);
        lemma_str_lt_from_total(a, b, 0);
    }
    if str_lt(a, b) && str_lt(b, c) {
        lemma_str_lt_from_trans(a, b, c, 0);
    }
}

/// Least of `keys[..n]` in `String` order.
pub open spec fn min_key_upto(keys: Seq<String>, n: int) -> Option<Seq<char>>
    decreases n,
{
    if n <= 0 || n > keys.len() {
        None
    } else {
        match min_key_upto(keys, n - 1) {
            Some(m) => if str_lt(keys[n - 1]@, m) {
                Some(keys[n - 1]@)
            } else {
                Some(m)
            },
            None => Some(keys[n - 1]@),
        }
    }
}

/// Where a segment itself leads: `defaultNext`, else its least `next` id.
pub open spec fn successor_spec(seg: ManifestSegment) -> Option<Seq<char>> {
    match seg.default_next {
        Some(n) => Some(n@),
        None => match seg.next {
            Some(keys) => min_key_upto(keys@, keys@.len() as int),
            None => None,
        },
    }
}

/// Where playback goes when segment `current` ends, with `pending` the
/// committed choice target: the choice when it resolves, else the group
/// routing keyed by `current`, else the segment's own successor.
pub open spec fn peek_spec(b: InteractiveBundle, g: Map<Seq<char>, Json>, p: Map<Seq<char>, Json>, pending: Option<Seq<char>>, current: Seq<char>) -> Option<Seq<char>> {
    let chosen = match pending {
        Some(t) => ref_spec(b, g, p, t, ROUTING_DEPTH as nat),
        None => None,
    };
    let routed = group_spec(b, g, p, current, ROUTING_DEPTH as nat);
    if chosen is Some {
        chosen
    } else if routed is Some {
        routed
    } else {
        match find_key(b.manifest.segments@, current) {
            Some(i) => successor_spec(b.manifest.segments@[i].1),
            None => None,
        }
    }
}

/// `a < b` in `String` order.
pub fn str_less(a: &str, b: &str) -> (r: bool)
    ensures
        r == str_lt(a@, b@),
{
    let x = chars_of(a);
    let y = chars_of(b);
    let mut i: usize = 0;
    while i < x.len() && i < y.len()
        invariant
            i <= x@.len(),
            i <= y@.len(),
            x@ == a@,
            y@ == b@,
            str_lt(a@, b@) == str_lt_from(a@, b@, i as int),
        decreases x.len() - i,
    {
        if x[i] != y[i] {
            return x[i] < y[i];
        }
        i += 1;
    }
    i < y.len()
}

/// The least of `keys` in `String` order.
pub fn min_key(keys: &Vec<String>) -> (r: Option<String>)
    ensures
        opt_str(r) == min_key_upto(keys@, keys@.len() as int),
{
    let mut best: Option<String> = None;
    let mut k: usize = 0;
    while k < keys.len()
        invariant
            k <= keys@.len(),
            opt_str(best) == min_key_upto(keys@, k as int),
        decreases keys.len() - k,
    {
        let replace = match &best {
            Some(m) => str_less(keys[k].as_str(), m.as_str()),
            None => true,
        };
        if replace {
            best = Some(keys[k].clone());
        }
        k += 1;
    }
    best
}

/// Where segment `seg` itself leads (see `successor_spec`).
pub fn successor(seg: &ManifestSegment) -> (r: Option<String>)
    ensures
        opt_str(r) == successor_spec(*seg),
{
    match &seg.default_next {
        Some(n) => Some(n.clone()),
        None => match &seg.next {
            Some(keys) => min_key(keys),
            None => None,
        },
    }
}

/// The members of an object value; nothing for anything else.
pub open spec fn object_members(v: Option<Json>) -> Seq<(Seq<char>, Json)> {
    match v {
        Some(Json::Object(es)) => es,
        _ => Seq::empty(),
    }
}

/// The writes an impression blob `{data: {global: {...}, persistent: {...}}}`
/// makes to scope `scope` (`"global"` or `"persistent"`).
pub open spec fn impression_writes(imp: Json, scope: Seq<char>) -> Seq<(Seq<char>, Json)> {
    match member_spec(imp, "data"@) {
        Some(d) => object_members(member_spec(d, scope)),
        None => Seq::empty(),
    }
}

/// Apply the members of `obj` (when it is an object) to `scope`; whether
/// some write found its key missing or holding another value.
fn write_members(scope: &mut StateMap, obj: Option<&JsonValue>) -> (changed: bool)
    ensures
        ({
            let es = object_members(match obj {
                Some(v) => Some(v@),
                None => None,
            });
            &&& final(scope)@ == insert_all(old(scope)@, es)
            &&& changed == any_change(old(scope)@, es)
        }),
{
    let es = match obj {
        Some(v) => match v.as_object() {
            Some(es) => es,
            None => {
                return false;
            },
        },
        None => {
            return false;
        },
    };
    let ghost start = scope@;
    let ghost views = entry_views(es@);
    proof {
        lemma_entry_views(es@);
    }
    let mut changed = false;
    let mut k: usize = 0;
    while k < es.len()
        invariant
            k <= es@.len(),
            views == entry_views(es@),
            views.len() == es@.len(),
            forall|j: int| 0 <= j < es@.len() ==> #[trigger] views[j] == (es@[j].0@, es@[j].1@),
            scope@ == insert_all(start, views.take(k as int)),
            changed == any_change(start, views.take(k as int)),
        decreases es.len() - k,
    {
        let same = match scope.get(es[k].0.as_str()) {
            Some(cur) => cur.json_eq(&es[k].1),
            None => false,
        };
        proof {
            assert(views.take(k + 1).drop_last() =~= views.take(k as int));
            assert(views.take(k + 1).last() == views[k as int]);
        }
        if !same {
            changed = true;
        }
        scope.insert(es[k].0.clone(), es[k].1.deep_copy());
        k += 1;
    }
    proof {
        assert(views.take(es@.len() as int) =~= views);
    }
    changed
}

/// The live state of an interactive session.
pub struct Shared {
    pub entry_id: i64,
    pub library_id: String,
    pub title: String,
    pub current_segment: String,
    /// Jump target committed by a choice (applied at segment end).
    pub pending_target: Option<String>,
    pub global: StateMap,
    pub persistent: StateMap,
    /// Story time at the current segment's entry.
    pub story_base_ms: i64,
    /// Segment ids visited this playthrough, in order.
    pub path: Vec<String>,
    pub seg_start_ms: i64,
    pub seg_end_ms: Option<i64>,
    /// The live choice window.
    pub open: Option<OpenChoice>,
    /// Decision points passed this playthrough.
    pub snapshots: Vec<ChoiceSnapshot>,
    /// Skip requested by the viewer, in ms (the driver applies the clamps).
    pub skip_request_ms: Option<i64>,
    /// Jump-back-to-snapshot request (index into `snapshots`).
    pub rewind_request: Option<usize>,
    /// Set after a rewind until its choice fires again; that commit
    /// truncates the abandoned future.
    pub rewound_index: Option<usize>,
    pub metrics: JumpMetrics,
}

impl Shared {
    /// A fresh session on `segment`, with empty state.
    pub fn new(entry_id: i64, library_id: String, title: String, segment: String) -> (sh: Shared)
        ensures
            sh.entry_id == entry_id,
            sh.library_id == library_id,
            sh.title == title,
            sh.current_segment == segment,
            sh.pending_target is None,
            sh.global@ == Map::<Seq<char>, Json>::empty(),
            sh.persistent@ == Map::<Seq<char>, Json>::empty(),
            sh.story_base_ms == 0,
            sh.path@.len() == 1 && sh.path@[0]@ == segment@,
            sh.seg_start_ms == 0,
            sh.seg_end_ms is None,
            sh.open is None,
            sh.snapshots@.len() == 0,
            sh.skip_request_ms is None,
            sh.rewind_request is None,
            sh.rewound_index is None,
            sh.metrics == JumpMetrics::empty(),
    {
        let first = segment.clone();
        let mut path: Vec<String> = Vec::new();
        path.push(first);
        Shared {
            entry_id,
            library_id,
            title,
            current_segment: segment,
            pending_target: None,
            global: StateMap::new(),
            persistent: StateMap::new(),
            story_base_ms: 0,
            path,
            seg_start_ms: 0,
            seg_end_ms: None,
            open: None,
            snapshots: Vec::new(),
            skip_request_ms: None,
            rewind_request: None,
            rewound_index: None,
            metrics: JumpMetrics::new(),
        }
    }

    /// Named precondition of the bundle; unknown names pass (better to show
    /// a choice than to dead-end the story).
    pub fn precondition_by_id(&self, bundle: &InteractiveBundle, id: &str) -> (b: bool)
        ensures
            b == precondition_spec(*bundle, self.global@, self.persistent@, id@),
    {
        match lookup(&bundle.moments.preconditions, id) {
            Some(expr) => eval_truthy(expr, &self.global, &self.persistent),
            None => true,
        }
    }

    /// The moment's inline and named preconditions both hold.
    pub fn moment_passes(&self, bundle: &InteractiveBundle, m: &Moment) -> (b: bool)
        ensures
            b == moment_passes_spec(*bundle, self.global@, self.persistent@, *m),
    {
        if let Some(expr) = &m.precondition {
            if !eval_truthy(expr, &self.global, &self.persistent) {
                return false;
            }
        }
        if let Some(id) = &m.precondition_id {
            if !self.precondition_by_id(bundle, id.as_str()) {
                return false;
            }
        }
        true
    }

    /// Merge an impression blob into the two state scopes. Returns whether
    /// the persistent scope changed (some write found its key missing or
    /// holding another value).
    pub fn apply_impression(&mut self, impression: &JsonValue) -> (changed: bool)
        ensures
            final(self).global@ == insert_all(old(self).global@, impression_writes(impression@, "global"@)),
            final(self).persistent@ == insert_all(old(self).persistent@, impression_writes(impression@, "persistent"@)),
            changed == any_change(old(self).persistent@, impression_writes(impression@, "persistent"@)),
            *final(self) == (Shared { global: final(self).global, persistent: final(self).persistent, ..*old(self) }),
    {
        let data = match impression.get("data") {
            Some(d) => d,
            None => {
                return false;
            },
        };
        write_members(&mut self.global, data.get("global"));
        write_members(&mut self.persistent, data.get("persistent"))
    }

    /// Resolve a jump reference — a segment id, or a segment-group name
    /// routed by preconditions — to a segment id. A name that is both reads
    /// as the segment.
    pub fn resolve_ref(&self, bundle: &InteractiveBundle, name: &str, depth: u8) -> (r: Option<String>)
        ensures
            opt_str(r) == ref_spec(*bundle, self.global@, self.persistent@, name@, depth as nat),
        decreases depth, 2int,
    {
        if contains_key(&bundle.manifest.segments, name) {
            return Some(name.to_string());
        }
        self.resolve_group(bundle, name, depth)
    }

    /// First member of the named group that resolves, through nested groups,
    /// following at most `depth` levels.
    pub fn resolve_group(&self, bundle: &InteractiveBundle, name: &str, depth: u8) -> (r: Option<String>)
        ensures
            opt_str(r) == group_spec(*bundle, self.global@, self.persistent@, name@, depth as nat),
        decreases depth, 1int,
    {
        if depth == 0 {
            return None;
        }
        let group = match lookup(&bundle.moments.segment_groups, name) {
            Some(g) => g,
            None => {
                return None;
            },
        };
        let ghost b = *bundle;
        let ghost g = self.global@;
        let ghost p = self.persistent@;
        let mut i: usize = 0;
        while i < group.len()
            invariant
                i <= group@.len(),
                depth > 0,
                b == *bundle,
                g == self.global@,
                p == self.persistent@,
                group_spec(b, g, p, name@, depth as nat) == items_spec(b, g, p, group@, i as int, depth as nat),
            decreases group.len() - i,
        {
            let hit = match &group[i] {
                GroupItem::Ref(s) => self.resolve_ref(bundle, s.as_str(), depth - 1),
                GroupItem::Segment { segment, precondition } => {
                    let passes = match precondition {
                        Some(pid) => self.precondition_by_id(bundle, pid.as_str()),
                        None => true,
                    };
                    if passes {
                        Some(segment.clone())
                    } else {
                        None
                    }
                },
                GroupItem::Group { segment_group } => self.resolve_group(
                    bundle,
                    segment_group.as_str(),
                    depth - 1,
                ),
            };
            proof {
                assert(opt_str(hit) == item_spec(b, g, p, group@[i as int], depth as nat));
            }
            if hit.is_some() {
                return hit;
            }
            i += 1;
        }
        None
    }

    /// Where playback goes when the current segment ends (see `peek_spec`).
    /// Changes nothing.
    pub fn resolve_peek(&self, bundle: &InteractiveBundle) -> (r: Option<String>)
        ensures
            opt_str(r) == peek_spec(*bundle, self.global@, self.persistent@, opt_str(self.pending_target), self.current_segment@),
    {
        if let Some(target) = &self.pending_target {
            let hit = self.resolve_ref(bundle, target.as_str(), ROUTING_DEPTH);
            if hit.is_some() {
                return hit;
            }
        }
        let routed = self.resolve_group(bundle, self.current_segment.as_str(), ROUTING_DEPTH);
        if routed.is_some() {
            return routed;
        }
        match lookup(&bundle.manifest.segments, self.current_segment.as_str()) {
            Some(seg) => successor(seg),
            None => None,
        }
    }

    /// Commit form of `resolve_peek`: the pending choice target is consumed
    /// by the transition whether or not it resolved.
    pub fn resolve_next(&mut self, bundle: &InteractiveBundle) -> (r: Option<String>)
        ensures
            opt_str(r) == peek_spec(*bundle, old(self).global@, old(self).persistent@, opt_str(old(self).pending_target), old(self).current_segment@),
            *final(self) == (Shared { pending_target: None, ..*old(self) }),
    {
        let hit = self.resolve_peek(bundle);
        self.pending_target = None;
        hit
    }
}

/// Applying the same impression a second time leaves both state scopes as
/// the first application left them and reports no persistent change —
/// provided the blob names no key twice in its persistent part.
pub proof fn law_impression_idempotent(g: Map<Seq<char>, Json>, p: Map<Seq<char>, Json>, imp: Json)
    requires
        keys_unique(impression_writes(imp, "persistent"@)),
    ensures
        ({
            let gw = impression_writes(imp, "global"@);
            let pw = impression_writes(imp, "persistent"@);
            let g1 = insert_all(g, gw);
            let p1 = insert_all(p, pw);
            &&& insert_all(g1, gw) == g1
            &&& insert_all(p1, pw) == p1
            &&& !any_change(p1, pw)
        }),
{
    let gw = impression_writes(imp, "global"@);
    let pw = impression_writes(imp, "persistent"@);
    lemma_insert_all_twice(g, gw);
    lemma_insert_all_twice(p, pw);
    lemma_no_change_again(p, pw, pw.len() as int);
    assert(pw.take(pw.len() as int) =~= pw);
}

} // verus!
