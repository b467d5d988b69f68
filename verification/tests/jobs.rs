use waverunner::jobs::{JobTable, EMIT_MIN_INTERVAL_MS};

fn start(t: &mut JobTable, id: &str, total: usize) -> bool {
    t.start(id.to_string(), "scan".to_string(), format!("Scanning {}", id), Some("lib1".to_string()), total)
}

#[test]
fn start_registers_and_refuses_duplicates() {
    let mut t = JobTable::new();
    assert!(!t.is_running("a"));
    assert!(start(&mut t, "a", 10));
    assert!(t.is_running("a"));
    assert!(!start(&mut t, "a", 99));
    let snap = t.snapshot();
    assert_eq!(snap.len(), 1);
    assert_eq!(snap[0].total, 10);
    assert_eq!(snap[0].done, 0);
    assert_eq!(snap[0].label, "Scanning a");
    assert_eq!(snap[0].library_id.as_deref(), Some("lib1"));
}

#[test]
fn finish_removes_only_that_job() {
    let mut t = JobTable::new();
    start(&mut t, "a", 1);
    start(&mut t, "b", 1);
    t.finish("a");
    assert!(!t.is_running("a"));
    assert!(t.is_running("b"));
    t.finish("zzz");
    assert_eq!(t.snapshot().len(), 1);
    // a finished id may start again
    assert!(start(&mut t, "a", 5));
}

#[test]
fn snapshot_is_sorted_by_id() {
    let mut t = JobTable::new();
    start(&mut t, "m", 1);
    start(&mut t, "b", 1);
    start(&mut t, "x", 1);
    start(&mut t, "a", 1);
    let ids: Vec<String> = t.snapshot().into_iter().map(|j| j.id).collect();
    assert_eq!(ids, vec!["a", "b", "m", "x"]);
}

#[test]
fn progress_throttles_emits() {
    let mut t = JobTable::new();
    start(&mut t, "a", 100);
    assert!(t.progress("a", 1, 100, None, 1000));
    assert!(!t.progress("a", 2, 100, None, 1000 + EMIT_MIN_INTERVAL_MS - 1));
    assert!(t.progress("a", 3, 100, Some("file".to_string()), 1000 + EMIT_MIN_INTERVAL_MS));
    // completion is always announced
    assert!(t.progress("a", 100, 100, None, 1000 + EMIT_MIN_INTERVAL_MS + 1));
    let snap = t.snapshot();
    assert_eq!(snap[0].done, 100);
    assert_eq!(snap[0].detail, None);
    // unknown job: nothing
    assert!(!t.progress("nope", 1, 1, None, 0));
}

#[test]
fn cancel_marks_running_job() {
    let mut t = JobTable::new();
    start(&mut t, "a", 1);
    assert!(!t.cancelled("a"));
    t.cancel("a");
    assert!(t.cancelled("a"));
    t.cancel("ghost");
    assert!(!t.cancelled("ghost"));
    assert_eq!(t.snapshot().len(), 1);
}

#[test]
fn new_job_is_not_cancelled_and_restart_clears_flag() {
    let mut t = JobTable::new();
    start(&mut t, "a", 3);
    assert!(!t.cancelled("a"));
    t.cancel("a");
    assert!(t.cancelled("a"));
    t.finish("a");
    assert!(!t.cancelled("a"));
    start(&mut t, "a", 3);
    assert!(!t.cancelled("a"));
}

#[test]
fn progress_throttle_is_per_job() {
    let mut t = JobTable::new();
    start(&mut t, "a", 100);
    start(&mut t, "b", 100);
    assert!(t.progress("a", 1, 100, None, 1000));
    // b has not announced yet: its first report goes out at once
    assert!(t.progress("b", 1, 100, None, 1001));
    assert!(!t.progress("a", 2, 100, None, 1100));
    // a clock that went backwards does not announce
    assert!(!t.progress("a", 3, 100, None, 10));
}

#[test]
fn finish_keeps_other_statuses() {
    let mut t = JobTable::new();
    start(&mut t, "a", 10);
    start(&mut t, "b", 20);
    t.progress("b", 7, 20, Some("x".to_string()), 5);
    t.finish("a");
    let snap = t.snapshot();
    assert_eq!(snap.len(), 1);
    assert_eq!(snap[0].id, "b");
    assert_eq!(snap[0].done, 7);
    assert_eq!(snap[0].detail.as_deref(), Some("x"));
}

#[test]
fn cancel_of_unknown_id_changes_nothing() {
    let mut t = JobTable::new();
    start(&mut t, "a", 3);
    t.cancel("zzz");
    assert!(!t.cancelled("zzz"));
    assert!(!t.cancelled("a"));
    assert_eq!(t.snapshot().len(), 1);
    // a job started later under that id is not flagged either
    start(&mut t, "zzz", 1);
    assert!(!t.cancelled("zzz"));
}

#[test]
fn running_exactly_when_listed() {
    let mut t = JobTable::new();
    start(&mut t, "a", 3);
    start(&mut t, "b", 3);
    t.progress("a", 1, 3, None, 0);
    t.cancel("b");
    t.finish("b");
    for id in ["a", "b", "c"] {
        let listed = t.snapshot().iter().any(|s| s.id == id);
        assert_eq!(t.is_running(id), listed, "{}", id);
    }
    assert!(t.is_running("a"));
    t.finish("a");
    assert!(!t.is_running("a"));
}
