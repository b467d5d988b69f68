//! Background jobs: long walks the user can keep browsing through. One table
//! of running jobs, keyed by id (`<kind>:<library>`), each with its progress
//! and a cancellation flag the job polls. Starting an id that is already
//! running does nothing (the caller just reattaches); finishing removes the
//! job. The whole list is announced on every change, sorted by id; progress
//! announcements are throttled.

use vstd::prelude::*;
use crate::session::{lemma_str_lt_order, str_less, str_lt};
use crate::text::str_eq;

verus! {

/// Progress updates are announced at most this often (ms), except the one
/// that completes the count.
pub const EMIT_MIN_INTERVAL_MS: u64 = 250;

/// One running job as the sidebar shows it.
pub struct JobStatus {
    pub id: String,
    /// "waveform-preload", "mb-prefetch-groups", ...
    pub kind: String,
    /// Sidebar line: "preloading waveforms".
    pub label: String,
    pub library_id: Option<String>,
    pub done: usize,
    pub total: usize,
    /// What is being worked on right now, for a byline.
    pub detail: Option<String>,
}

fn copy_opt(o: &Option<String>) -> (r: Option<String>)
    ensures
        r == *o,
{
    match o {
        Some(s) => Some(s.clone()),
        None => None,
    }
}

impl JobStatus {
    /// An identical copy.
    pub fn copy(&self) -> (r: JobStatus)
        ensures
            r == *self,
    {
        JobStatus {
            id: self.id.clone(),
            kind: self.kind.clone(),
            label: self.label.clone(),
            library_id: copy_opt(&self.library_id),
            done: self.done,
            total: self.total,
            detail: copy_opt(&self.detail),
        }
    }
}

struct JobEntry {
    status: JobStatus,
    cancel: bool,
    /// When progress was last announced (ms on the caller's monotonic
    /// clock); none yet.
    last_emit_ms: Option<u64>,
}

/// The table of running jobs.
pub struct JobTable {
    entries: Vec<JobEntry>,
}

/// No id occurs twice.
pub open spec fn ids_unique(jobs: Seq<JobStatus>) -> bool {
    forall|i: int, j: int| 0 <= i < j < jobs.len() ==> #[trigger] jobs[i].id@ != #[trigger] jobs[j].id@
}

/// Some job has id `id`.
pub open spec fn has_job(jobs: Seq<JobStatus>, id: Seq<char>) -> bool {
    exists|i: int| 0 <= i < jobs.len() && #[trigger] jobs[i].id@ == id
}

/// No id occurs twice among the entries.
spec fn entries_unique(es: Seq<JobEntry>) -> bool {
    forall|i: int, j: int| 0 <= i < j < es.len() ==> #[trigger] es[i].status.id@ != #[trigger] es[j].status.id@
}

/// Some entry has id `id`.
spec fn has_entry(es: Seq<JobEntry>, id: Seq<char>) -> bool {
    exists|k: int| 0 <= k < es.len() && #[trigger] es[k].status.id@ == id
}

/// The entry with id `id`, if any.
spec fn entry_of(es: Seq<JobEntry>, id: Seq<char>) -> Option<JobEntry> {
    if has_entry(es, id) {
        Some(es[choose|k: int| 0 <= k < es.len() && #[trigger] es[k].status.id@ == id])
    } else {
        None
    }
}

/// The entry with id `id` carries the stop flag.
spec fn cancel_in(es: Seq<JobEntry>, id: Seq<char>) -> bool {
    exists|i: int| 0 <= i < es.len() && #[trigger] es[i].status.id@ == id && es[i].cancel
}

proof fn lemma_unique_entries(es: Seq<JobEntry>)
    requires
        ids_unique(es.map_values(|e: JobEntry| e.status)),
    ensures
        entries_unique(es),
{
    let js = es.map_values(|e: JobEntry| e.status);
    assert forall|i: int, j: int| 0 <= i < j < es.len() implies #[trigger] es[i].status.id@ != #[trigger] es[j].status.id@ by {
        assert(js[i] == es[i].status);
        assert(js[j] == es[j].status);
    }
}

proof fn lemma_entry_at(es: Seq<JobEntry>, i: int, id: Seq<char>)
    requires
        entries_unique(es),
        0 <= i < es.len(),
        es[i].status.id@ == id,
    ensures
        entry_of(es, id) == Some(es[i]),
        cancel_in(es, id) == es[i].cancel,
{
    assert(has_entry(es, id));
    let k = choose|k: int| 0 <= k < es.len() && #[trigger] es[k].status.id@ == id;
    if k != i {
        if k < i {
            assert(es[k].status.id@ != es[i].status.id@);
        } else {
            assert(es[i].status.id@ != es[k].status.id@);
        }
    }
    if cancel_in(es, id) {
        let c = choose|c: int| 0 <= c < es.len() && #[trigger] es[c].status.id@ == id && es[c].cancel;
        if c != i {
            if c < i {
                assert(es[c].status.id@ != es[i].status.id@);
            } else {
                assert(es[i].status.id@ != es[c].status.id@);
            }
        }
    }
}

proof fn lemma_entry_absent(es: Seq<JobEntry>, id: Seq<char>)
    requires
        forall|k: int| 0 <= k < es.len() ==> #[trigger] es[k].status.id@ != id,
    ensures
        entry_of(es, id) is None,
        !cancel_in(es, id),
{
}

/// Two tables that hold the same entries for id `x` (at any positions)
/// agree on that id.
proof fn lemma_entry_same(es1: Seq<JobEntry>, es2: Seq<JobEntry>, x: Seq<char>)
    requires
        entries_unique(es1),
        entries_unique(es2),
        forall|k: int| 0 <= k < es1.len() && #[trigger] es1[k].status.id@ == x ==> exists|k2: int| 0 <= k2 < es2.len() && es2[k2] == es1[k],
        forall|k: int| 0 <= k < es2.len() && #[trigger] es2[k].status.id@ == x ==> exists|k1: int| 0 <= k1 < es1.len() && es1[k1] == es2[k],
    ensures
        entry_of(es1, x) == entry_of(es2, x),
        cancel_in(es1, x) == cancel_in(es2, x),
{
    if has_entry(es1, x) {
        let k = choose|k: int| 0 <= k < es1.len() && #[trigger] es1[k].status.id@ == x;
        let k2 = choose|k2: int| 0 <= k2 < es2.len() && es2[k2] == es1[k];
        lemma_entry_at(es1, k, x);
        lemma_entry_at(es2, k2, x);
    } else if has_entry(es2, x) {
        let k = choose|k: int| 0 <= k < es2.len() && #[trigger] es2[k].status.id@ == x;
        let k1 = choose|k1: int| 0 <= k1 < es1.len() && es1[k1] == es2[k];
        assert(es1[k1].status.id@ == x);
    } else {
        lemma_entry_absent(es1, x);
        lemma_entry_absent(es2, x);
    }
}

/// Some of the first `n` of `src` is `j`.
spec fn covers(src: Seq<int>, n: int, j: int) -> bool {
    exists|q: int| 0 <= q < n && #[trigger] src[q] == j
}

/// A job with id `x` that runs in `a` still runs in `b`.
pub open spec fn still_running(a: Seq<JobStatus>, b: Seq<JobStatus>, x: Seq<char>) -> bool {
    has_job(a, x) ==> has_job(b, x)
}

/// Progress is announced again when none was announced yet, or at least
/// `EMIT_MIN_INTERVAL_MS` after the last announcement at `last`.
pub open spec fn emit_due(last: Option<u64>, now_ms: u64) -> bool {
    match last {
        None => true,
        Some(l) => now_ms >= l && now_ms - l >= EMIT_MIN_INTERVAL_MS,
    }
}

impl JobTable {
    /// The running jobs, in the order they started.
    pub closed spec fn jobs(&self) -> Seq<JobStatus> {
        self.entries@.map_values(|e: JobEntry| e.status)
    }

    /// Whether the job with id `id` was asked to stop.
    pub closed spec fn cancel_requested(&self, id: Seq<char>) -> bool {
        cancel_in(self.entries@, id)
    }

    /// When progress of job `id` was last announced (ms on the caller's
    /// clock); none when not yet, or when no such job runs.
    pub closed spec fn last_emit(&self, id: Seq<char>) -> Option<u64> {
        match entry_of(self.entries@, id) {
            Some(e) => e.last_emit_ms,
            None => None,
        }
    }

    #[verifier::type_invariant]
    closed spec fn inv(self) -> bool {
        ids_unique(self.jobs())
    }

    /// No job running.
    pub fn new() -> (t: JobTable)
        ensures
            t.jobs().len() == 0,
            forall|id: Seq<char>| !#[trigger] t.cancel_requested(id),
            forall|id: Seq<char>| #[trigger] t.last_emit(id) is None,
    {
        let t = JobTable { entries: Vec::new() };
        assert(t.jobs() =~= Seq::empty());
        t
    }

    fn find(&self, id: &str) -> (r: Option<usize>)
        ensures
            match r {
                Some(i) => i < self.entries@.len() && self.entries@[i as int].status.id@ == id@,
                None => forall|i: int| 0 <= i < self.entries@.len() ==> #[trigger] self.entries@[i].status.id@ != id@,
            },
    {
        let mut i: usize = 0;
        while i < self.entries.len()
            invariant
                i <= self.entries@.len(),
                forall|k: int| 0 <= k < i ==> #[trigger] self.entries@[k].status.id@ != id@,
            decreases self.entries.len() - i,
        {
            if str_eq(self.entries[i].status.id.as_str(), id) {
                return Some(i);
            }
            i += 1;
        }
        None
    }

    /// A job with id `id` is running.
    pub fn is_running(&self, id: &str) -> (b: bool)
        ensures
            b == has_job(self.jobs(), id@),
    {
        let r = self.find(id);
        proof {
            match r {
                Some(i) => {
                    assert(self.jobs()[i as int].id@ == id@);
                },
                None => {
                    assert forall|i: int| 0 <= i < self.jobs().len() implies #[trigger] self.jobs()[i].id@ != id@ by {
                        assert(self.jobs()[i] == self.entries@[i].status);
                    }
                },
            }
        }
        r.is_some()
    }

    /// Register a job. Refused (false, nothing changes) when that id is
    /// already running; otherwise it joins the table with nothing done yet.
    pub fn start(&mut self, id: String, kind: String, label: String, library_id: Option<String>, total: usize) -> (started: bool)
        ensures
            started == !has_job(old(self).jobs(), id@),
            !started ==> final(self).jobs() == old(self).jobs(),
            started ==> final(self).jobs() == old(self).jobs().push(
                JobStatus { id, kind, label, library_id, done: 0, total, detail: None },
            ),
            started ==> !final(self).cancel_requested(id@) && final(self).last_emit(id@) is None,
            has_job(final(self).jobs(), id@),
            forall|x: Seq<char>| #[trigger] still_running(old(self).jobs(), final(self).jobs(), x),
            forall|x: Seq<char>| (x != id@ || !started) ==> #[trigger] final(self).cancel_requested(x) == old(self).cancel_requested(x),
            forall|x: Seq<char>| (x != id@ || !started) ==> #[trigger] final(self).last_emit(x) == old(self).last_emit(x),
    {
        proof {
            use_type_invariant(&*self);
        }
        if self.is_running(id.as_str()) {
            return false;
        }
        let ghost before = self.jobs();
        let status = JobStatus { id, kind, label, library_id, done: 0, total, detail: None };
        let ghost st = status;
        let mut entries = Vec::new();
        std::mem::swap(&mut entries, &mut self.entries);
        let ghost es = entries@;
        entries.push(JobEntry { status, cancel: false, last_emit_ms: None });
        proof {
            let js = entries@.map_values(|e: JobEntry| e.status);
            assert(js =~= before.push(st));
            assert(js[before.len() as int].id@ == id@);
            assert forall|x: Seq<char>| #[trigger] still_running(before, js, x) by {
                if has_job(before, x) {
                    let k = choose|k: int| 0 <= k < before.len() && #[trigger] before[k].id@ == x;
                    assert(js[k] == before[k]);
                }
            }
            assert forall|i: int, j: int| 0 <= i < j < js.len() implies #[trigger] js[i].id@ != #[trigger] js[j].id@ by {
                if j == js.len() - 1 {
                    assert(js[i] == before[i]);
                }
            }
            lemma_unique_entries(es);
            lemma_unique_entries(entries@);
            let n = es.len() as int;
            lemma_entry_at(entries@, n, id@);
            assert forall|x: Seq<char>| x != id@ implies entry_of(entries@, x) == entry_of(es, x) && cancel_in(entries@, x) == cancel_in(es, x) by {
                assert forall|k: int| 0 <= k < es.len() && #[trigger] es[k].status.id@ == x implies exists|k2: int| 0 <= k2 < entries@.len() && entries@[k2] == es[k] by {
                    assert(entries@[k] == es[k]);
                }
                assert forall|k: int| 0 <= k < entries@.len() && #[trigger] entries@[k].status.id@ == x implies exists|k1: int| 0 <= k1 < es.len() && es[k1] == entries@[k] by {
                    assert(k != n);
                    assert(entries@[k] == es[k]);
                }
                lemma_entry_same(es, entries@, x);
            }
        }
        self.entries = entries;
        true
    }

    /// Record progress of job `id` at time `now_ms`. Returns whether to
    /// announce it: when none was announced yet, when at least
    /// `EMIT_MIN_INTERVAL_MS` passed since the last one, or when the count is
    /// complete. An unknown id changes nothing.
    pub fn progress(&mut self, id: &str, done: usize, total: usize, detail: Option<String>, now_ms: u64) -> (emit: bool)
        ensures
            !has_job(old(self).jobs(), id@) ==> !emit && final(self).jobs() == old(self).jobs(),
            has_job(old(self).jobs(), id@) ==> exists|i: int|
                0 <= i < old(self).jobs().len() && #[trigger] old(self).jobs()[i].id@ == id@ && final(self).jobs()
                    == old(self).jobs().update(i, JobStatus { done, total, detail, ..old(self).jobs()[i] }),
            emit == (has_job(old(self).jobs(), id@) && (done >= total || emit_due(old(self).last_emit(id@), now_ms))),
            final(self).last_emit(id@) == if emit { Some(now_ms) } else { old(self).last_emit(id@) },
            forall|x: Seq<char>| x != id@ ==> #[trigger] final(self).last_emit(x) == old(self).last_emit(x),
            forall|x: Seq<char>| #[trigger] final(self).cancel_requested(x) == old(self).cancel_requested(x),
            forall|x: Seq<char>| #[trigger] has_job(final(self).jobs(), x) == has_job(old(self).jobs(), x),
            forall|x: Seq<char>| #[trigger] still_running(old(self).jobs(), final(self).jobs(), x),
    {
        proof {
            use_type_invariant(&*self);
        }
        let ghost before = self.jobs();
        let i = match self.find(id) {
            Some(i) => i,
            None => {
                proof {
                    assert forall|k: int| 0 <= k < before.len() implies #[trigger] before[k].id@ != id@ by {
                        assert(before[k] == self.entries@[k].status);
                    }
                    lemma_entry_absent(self.entries@, id@);
                }
                return false;
            },
        };
        let mut entries = Vec::new();
        std::mem::swap(&mut entries, &mut self.entries);
        let ghost es = entries@;
        let mut e = entries.remove(i);
        e.status.done = done;
        e.status.total = total;
        e.status.detail = detail;
        let due = match e.last_emit_ms {
            None => true,
            Some(last) => now_ms >= last && now_ms - last >= EMIT_MIN_INTERVAL_MS,
        } || done >= total;
        if due {
            e.last_emit_ms = Some(now_ms);
        }
        let ghost new_status = e.status;
        entries.insert(i, e);
        proof {
            let js = entries@.map_values(|x: JobEntry| x.status);
            assert(entries@ =~= es.update(i as int, entries@[i as int]));
            assert(js =~= before.update(i as int, new_status));
            assert(before[i as int].id@ == id@);
            assert forall|x: Seq<char>| #[trigger] has_job(js, x) == has_job(before, x) by {
                if has_job(before, x) {
                    let k = choose|k: int| 0 <= k < before.len() && #[trigger] before[k].id@ == x;
                    assert(js[k].id@ == x);
                }
                if has_job(js, x) {
                    let k = choose|k: int| 0 <= k < js.len() && #[trigger] js[k].id@ == x;
                    assert(before[k].id@ == x);
                }
            }
            assert forall|a: int, b: int| 0 <= a < b < js.len() implies #[trigger] js[a].id@ != #[trigger] js[b].id@ by {
                assert(before[a].id@ != before[b].id@);
            }
            lemma_unique_entries(es);
            lemma_unique_entries(entries@);
            lemma_entry_at(es, i as int, id@);
            lemma_entry_at(entries@, i as int, id@);
            assert forall|x: Seq<char>| x != id@ implies entry_of(entries@, x) == entry_of(es, x) && cancel_in(entries@, x) == cancel_in(es, x) by {
                assert forall|k: int| 0 <= k < es.len() && #[trigger] es[k].status.id@ == x implies exists|k2: int| 0 <= k2 < entries@.len() && entries@[k2] == es[k] by {
                    assert(k != i);
                    assert(entries@[k] == es[k]);
                }
                assert forall|k: int| 0 <= k < entries@.len() && #[trigger] entries@[k].status.id@ == x implies exists|k1: int| 0 <= k1 < es.len() && es[k1] == entries@[k] by {
                    assert(k != i);
                    assert(entries@[k] == es[k]);
                }
                lemma_entry_same(es, entries@, x);
            }
        }
        self.entries = entries;
        due
    }

    /// Job `id` ends: it leaves the table.
    pub fn finish(&mut self, id: &str)
        ensures
            !has_job(final(self).jobs(), id@),
            forall|x: Seq<char>| x != id@ ==> (has_job(final(self).jobs(), x) == has_job(old(self).jobs(), x)),
            final(self).jobs().len() == old(self).jobs().len() - if has_job(old(self).jobs(), id@) { 1int } else { 0 },
            has_job(old(self).jobs(), id@) ==> exists|i: int|
                0 <= i < old(self).jobs().len() && #[trigger] old(self).jobs()[i].id@ == id@ && final(self).jobs() == old(self).jobs().remove(i),
            !has_job(old(self).jobs(), id@) ==> final(self).jobs() == old(self).jobs(),
            !final(self).cancel_requested(id@) && final(self).last_emit(id@) is None,
            forall|x: Seq<char>| x != id@ ==> #[trigger] final(self).cancel_requested(x) == old(self).cancel_requested(x),
            forall|x: Seq<char>| x != id@ ==> #[trigger] final(self).last_emit(x) == old(self).last_emit(x),
            forall|x: Seq<char>| x != id@ ==> #[trigger] still_running(old(self).jobs(), final(self).jobs(), x),
    {
        proof {
            use_type_invariant(&*self);
        }
        let ghost before = self.jobs();
        match self.find(id) {
            Some(i) => {
                let mut entries = Vec::new();
                std::mem::swap(&mut entries, &mut self.entries);
                let ghost es = entries@;
                entries.remove(i);
                proof {
                    let js = entries@.map_values(|x: JobEntry| x.status);
                    assert(js =~= before.remove(i as int));
                    assert forall|a: int, b: int| 0 <= a < b < js.len() implies #[trigger] js[a].id@ != #[trigger] js[b].id@ by {
                        let a2 = if a < i { a } else { a + 1 };
                        let b2 = if b < i { b } else { b + 1 };
                        assert(js[a] == before[a2]);
                        assert(js[b] == before[b2]);
                    }
                    assert(before[i as int].id@ == id@);
                    if has_job(js, id@) {
                        let k = choose|k: int| 0 <= k < js.len() && #[trigger] js[k].id@ == id@;
                        let k2 = if k < i { k } else { k + 1 };
                        assert(js[k] == before[k2]);
                        if k2 < i {
                            assert(before[k2].id@ != before[i as int].id@);
                        } else {
                            assert(before[i as int].id@ != before[k2].id@);
                        }
                    }
                    assert forall|x: Seq<char>| x != id@ implies (has_job(js, x) == has_job(before, x)) by {
                        if has_job(before, x) {
                            let k = choose|k: int| 0 <= k < before.len() && #[trigger] before[k].id@ == x;
                            assert(k != i);
                            let k2 = if k < i { k } else { k - 1 };
                            assert(js[k2] == before[k]);
                        }
                        if has_job(js, x) {
                            let k = choose|k: int| 0 <= k < js.len() && #[trigger] js[k].id@ == x;
                            let k2 = if k < i { k } else { k + 1 };
                            assert(js[k] == before[k2]);
                        }
                    }
                    assert(before[i as int].id@ == id@ && js == before.remove(i as int));
                    lemma_unique_entries(es);
                    lemma_unique_entries(entries@);
                    assert forall|k: int| 0 <= k < entries@.len() implies #[trigger] entries@[k].status.id@ != id@ by {
                        assert(js[k] == entries@[k].status);
                    }
                    lemma_entry_absent(entries@, id@);
                    assert forall|x: Seq<char>| x != id@ implies entry_of(entries@, x) == entry_of(es, x) && cancel_in(entries@, x) == cancel_in(es, x) by {
                        assert forall|k: int| 0 <= k < es.len() && #[trigger] es[k].status.id@ == x implies exists|k2: int| 0 <= k2 < entries@.len() && entries@[k2] == es[k] by {
                            assert(k != i);
                            let k2 = if k < i { k } else { k - 1 };
                            assert(entries@[k2] == es[k]);
                        }
                        assert forall|k: int| 0 <= k < entries@.len() && #[trigger] entries@[k].status.id@ == x implies exists|k1: int| 0 <= k1 < es.len() && es[k1] == entries@[k] by {
                            let k1 = if k < i { k } else { k + 1 };
                            assert(es[k1] == entries@[k]);
                        }
                        lemma_entry_same(es, entries@, x);
                    }
                }
                self.entries = entries;
            },
            None => {
                proof {
                    assert forall|k: int| 0 <= k < before.len() implies #[trigger] before[k].id@ != id@ by {
                        assert(before[k] == self.entries@[k].status);
                    }
                    lemma_entry_absent(self.entries@, id@);
                }
            },
        }
    }

    /// Ask job `id` to stop (it polls `cancelled`); unknown ids are ignored.
    pub fn cancel(&mut self, id: &str)
        ensures
            final(self).jobs() == old(self).jobs(),
            has_job(old(self).jobs(), id@) ==> final(self).cancel_requested(id@),
            forall|x: Seq<char>| x != id@ ==> #[trigger] final(self).cancel_requested(x) == old(self).cancel_requested(x),
            forall|x: Seq<char>| #[trigger] final(self).last_emit(x) == old(self).last_emit(x),
            !has_job(old(self).jobs(), id@) ==> final(self).cancel_requested(id@) == old(self).cancel_requested(id@)
                && !final(self).cancel_requested(id@),
            forall|x: Seq<char>| #[trigger] still_running(old(self).jobs(), final(self).jobs(), x),
    {
        proof {
            use_type_invariant(&*self);
        }
        if let Some(i) = self.find(id) {
            let ghost before = self.jobs();
            let mut entries = Vec::new();
            std::mem::swap(&mut entries, &mut self.entries);
            let ghost es = entries@;
            let mut e = entries.remove(i);
            e.cancel = true;
            entries.insert(i, e);
            proof {
                let js = entries@.map_values(|x: JobEntry| x.status);
                assert(entries@ =~= es.update(i as int, entries@[i as int]));
                assert(js =~= before);
                assert(entries@[i as int].status.id@ == id@ && entries@[i as int].cancel);
                assert(before[i as int].id@ == id@);
                lemma_unique_entries(es);
                lemma_unique_entries(entries@);
                lemma_entry_at(es, i as int, id@);
                lemma_entry_at(entries@, i as int, id@);
                assert forall|x: Seq<char>| x != id@ implies entry_of(entries@, x) == entry_of(es, x) && cancel_in(entries@, x) == cancel_in(es, x) by {
                    assert forall|k: int| 0 <= k < es.len() && #[trigger] es[k].status.id@ == x implies exists|k2: int| 0 <= k2 < entries@.len() && entries@[k2] == es[k] by {
                        assert(k != i);
                        assert(entries@[k] == es[k]);
                    }
                    assert forall|k: int| 0 <= k < entries@.len() && #[trigger] entries@[k].status.id@ == x implies exists|k1: int| 0 <= k1 < es.len() && es[k1] == entries@[k] by {
                        assert(k != i);
                        assert(entries@[k] == es[k]);
                    }
                    lemma_entry_same(es, entries@, x);
                }
            }
            self.entries = entries;
        } else {
            proof {
                let before = self.jobs();
                assert forall|k: int| 0 <= k < self.entries@.len() implies #[trigger] self.entries@[k].status.id@ != id@ by {
                    assert(before[k] == self.entries@[k].status);
                }
                lemma_entry_absent(self.entries@, id@);
                assert(!has_job(before, id@)) by {
                    if has_job(before, id@) {
                        let k = choose|k: int| 0 <= k < before.len() && #[trigger] before[k].id@ == id@;
                        assert(before[k] == self.entries@[k].status);
                    }
                }
            }
        }
    }

    /// Whether job `id` was asked to stop.
    pub fn cancelled(&self, id: &str) -> (b: bool)
        ensures
            b == self.cancel_requested(id@),
    {
        proof {
            use_type_invariant(self);
        }
        match self.find(id) {
            Some(i) => {
                let b = self.entries[i].cancel;
                proof {
                    if self.cancel_requested(id@) {
                        let k = choose|k: int| 0 <= k < self.entries@.len() && #[trigger] self.entries@[k].status.id@ == id@ && self.entries@[k].cancel;
                        let js = self.jobs();
                        assert(js[k] == self.entries@[k].status);
                        assert(js[i as int] == self.entries@[i as int].status);
                        if k != i as int {
                            if k < i {
                                assert(js[k].id@ != js[i as int].id@);
                            } else {
                                assert(js[i as int].id@ != js[k].id@);
                            }
                        }
                    }
                }
                b
            },
            None => false,
        }
    }

    /// The running jobs sorted by id.
    pub fn snapshot(&self) -> (r: Vec<JobStatus>)
        ensures
            r@.len() == self.jobs().len(),
            forall|q: int| 0 <= q < r@.len() ==> self.jobs().contains(#[trigger] r@[q]),
            forall|a: int, b: int| 0 <= a < b < r@.len() ==> str_lt(#[trigger] r@[a].id@, #[trigger] r@[b].id@),
            forall|j: int| 0 <= j < self.jobs().len() ==> r@.contains(#[trigger] self.jobs()[j]),
            forall|x: Seq<char>| #[trigger] has_job(r@, x) == has_job(self.jobs(), x),
    {
        proof {
            use_type_invariant(self);
        }
        let ghost jobs = self.jobs();
        let mut out: Vec<JobStatus> = Vec::new();
        // Where each placed status came from.
        let ghost mut src: Seq<int> = Seq::empty();
        let mut k: usize = 0;
        while k < self.entries.len()
            invariant
                k <= self.entries@.len(),
                jobs == self.jobs(),
                jobs.len() == self.entries@.len(),
                ids_unique(jobs),
                out@.len() == k,
                src.len() == k,
                forall|q: int| 0 <= q < k ==> 0 <= #[trigger] src[q] < k && out@[q] == jobs[src[q]],
                forall|j: int| 0 <= j < k ==> #[trigger] covers(src, k as int, j),
                forall|a: int, b: int| 0 <= a < b < out@.len() ==> str_lt(#[trigger] out@[a].id@, #[trigger] out@[b].id@),
            decreases self.entries.len() - k,
        {
            let x = self.entries[k].status.copy();
            proof {
                assert(x == jobs[k as int]);
            }
            // Position: after every id that sorts before x.
            let mut p: usize = 0;
            while p < out.len() && str_less(out[p].id.as_str(), x.id.as_str())
                invariant
                    p <= out@.len(),
                    forall|q: int| 0 <= q < p ==> str_lt(#[trigger] out@[q].id@, x.id@),
                decreases out.len() - p,
            {
                p += 1;
            }
            let ghost before = out@;
            proof {
                // x's id differs from every id already placed.
                assert forall|q: int| 0 <= q < before.len() implies #[trigger] before[q].id@ != x.id@ by {
                    assert(before[q] == jobs[src[q]]);
                    assert(src[q] != k);
                    if src[q] < k {
                        assert(jobs[src[q]].id@ != jobs[k as int].id@);
                    }
                }
                assert forall|q: int| p <= q < before.len() implies str_lt(x.id@, #[trigger] before[q].id@) by {
                    lemma_str_lt_order(x.id@, before[p as int].id@, before[q].id@);
                    lemma_str_lt_order(before[p as int].id@, x.id@, x.id@);
                }
            }
            out.insert(p, x);
            proof {
                let old_src = src;
                src = src.insert(p as int, k as int);
                assert forall|j: int| 0 <= j < k + 1 implies #[trigger] covers(src, k + 1, j) by {
                    if j == k {
                        assert(src[p as int] == j);
                    } else {
                        assert(covers(old_src, k as int, j));
                        let q = choose|q: int| 0 <= q < k && #[trigger] old_src[q] == j;
                        if q < p {
                            assert(src[q] == j);
                        } else {
                            assert(src[q + 1] == j);
                        }
                    }
                }
                assert forall|a: int, b: int| 0 <= a < b < out@.len() implies str_lt(#[trigger] out@[a].id@, #[trigger] out@[b].id@) by {
                    if a < p && b == p {
                    } else if a < p && b > p {
                        assert(out@[b] == before[b - 1]);
                        lemma_str_lt_order(before[a].id@, x.id@, before[b - 1].id@);
                    } else if a == p {
                        assert(out@[b] == before[b - 1]);
                    } else if b < p {
                        assert(out@[a] == before[a] && out@[b] == before[b]);
                    } else {
                        assert(out@[a] == before[a - 1] && out@[b] == before[b - 1]);
                    }
                }
            }
            k += 1;
        }
        proof {
            assert forall|q: int| 0 <= q < out@.len() implies self.jobs().contains(#[trigger] out@[q]) by {
                assert(0 <= src[q] < k && out@[q] == jobs[src[q]]);
                assert(out@[q] == self.jobs()[src[q]]);
            }
            assert forall|j: int| 0 <= j < jobs.len() implies out@.contains(#[trigger] jobs[j]) by {
                assert(covers(src, k as int, j));
                let q = choose|q: int| 0 <= q < k && #[trigger] src[q] == j;
                assert(out@[q] == jobs[j]);
            }
            assert forall|x: Seq<char>| #[trigger] has_job(out@, x) == has_job(jobs, x) by {
                if has_job(jobs, x) {
                    let j = choose|j: int| 0 <= j < jobs.len() && #[trigger] jobs[j].id@ == x;
                    assert(out@.contains(jobs[j]));
                    let q = choose|q: int| 0 <= q < out@.len() && out@[q] == jobs[j];
                    assert(out@[q].id@ == x);
                }
                if has_job(out@, x) {
                    let q = choose|q: int| 0 <= q < out@.len() && #[trigger] out@[q].id@ == x;
                    assert(jobs[src[q]].id@ == x);
                }
            }
        }
        out
    }
}

/// A job that starts and then finishes leaves the table as it was: the same
/// ids are running, and as many jobs.
pub proof fn law_start_then_finish(before: Seq<JobStatus>, started: Seq<JobStatus>, after: Seq<JobStatus>, job: JobStatus)
    requires
        !has_job(before, job.id@),
        started == before.push(job),
        !has_job(after, job.id@),
        forall|x: Seq<char>| x != job.id@ ==> (has_job(after, x) == has_job(started, x)),
        after.len() == started.len() - if has_job(started, job.id@) { 1int } else { 0 },
    ensures
        forall|x: Seq<char>| has_job(after, x) == has_job(before, x),
        after.len() == before.len(),
{
    assert(started[before.len() as int] == job);
    assert(has_job(started, job.id@));
    assert forall|x: Seq<char>| x != job.id@ implies has_job(started, x) == has_job(before, x) by {
        if has_job(started, x) {
            let i = choose|i: int| 0 <= i < started.len() && (#[trigger] started[i]).id@ == x;
            assert(i < before.len());
            assert(before[i] == started[i]);
        }
        if has_job(before, x) {
            let i = choose|i: int| 0 <= i < before.len() && (#[trigger] before[i]).id@ == x;
            assert(started[i] == before[i]);
        }
    }
}

/// A job keeps running from the call that starts it until the call that
/// finishes it. Every table operation but finishing that job (starting,
/// reporting progress, cancelling, finishing another job) ensures
/// `still_running` for it, so across any run of such operations it stays in
/// the table, and `is_running` and `snapshot` report it.
pub proof fn law_running_until_finished(tables: Seq<Seq<JobStatus>>, id: Seq<char>)
    requires
        tables.len() > 0,
        has_job(tables[0], id),
        forall|k: int| 0 <= k < tables.len() - 1 ==> #[trigger] still_running(tables[k], tables[k + 1], id),
    ensures
        forall|k: int| 0 <= k < tables.len() ==> #[trigger] has_job(tables[k], id),
    decreases tables.len(),
{
    if tables.len() > 1 {
        let front = tables.drop_last();
        assert forall|k: int| 0 <= k < front.len() - 1 implies #[trigger] still_running(front[k], front[k + 1], id) by {
            assert(still_running(tables[k], tables[k + 1], id));
        }
        law_running_until_finished(front, id);
        assert forall|k: int| 0 <= k < tables.len() implies #[trigger] has_job(tables[k], id) by {
            if k < tables.len() - 1 {
                assert(has_job(front[k], id));
            } else {
                let j = k - 1;
                assert(has_job(front[j], id));
                assert(still_running(tables[j], tables[j + 1], id));
                assert(tables[j + 1] == tables[k]);
            }
        }
    }
}

} // verus!
