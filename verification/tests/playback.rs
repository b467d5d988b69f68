use waverunner::driver::{poll_interval_ms, settle_step, Action, Driver, SettleStep};
use waverunner::engine::Fired;
use waverunner::interactive::{Choice, InteractiveBundle, Manifest, ManifestSegment, Moment, MomentsValue};
use waverunner::json::JsonValue;
use waverunner::session::Shared;

fn obj(members: Vec<(&str, JsonValue)>) -> JsonValue {
    JsonValue::Object(members.into_iter().map(|(k, v)| (k.to_string(), v)).collect())
}

fn seg(start: i64, end: Option<i64>, default_next: Option<&str>) -> ManifestSegment {
    ManifestSegment {
        start_time_ms: start,
        end_time_ms: end,
        default_next: default_next.map(|d| d.to_string()),
        next: None,
        ui: None,
        story_end: None,
        credits: None,
    }
}

fn moment(kind: &str, start: i64, end: i64, choices: Option<Vec<Choice>>) -> Moment {
    Moment {
        kind: Some(kind.to_string()),
        id: Some("m".to_string()),
        start_ms: Some(start),
        end_ms: Some(end),
        ui_display_ms: None,
        ui_interaction_start_ms: None,
        ui_hide_ms: None,
        choice_activation_threshold_ms: None,
        activation_window: None,
        default_choice_index: Some(1),
        choices,
        impression_data: None,
        precondition_id: None,
        precondition: None,
        layout_type: None,
        header_text: Some("Hint".to_string()),
        body_text: None,
        timeout_segment: None,
    }
}

fn choice(text: &str, target: &str, persistent_key: &str) -> Choice {
    Choice {
        id: Some(text.to_string()),
        text: Some(text.to_string()),
        sub_text: None,
        background: None,
        segment_id: Some(target.to_string()),
        sg: None,
        start_time_ms: None,
        impression_data: Some(obj(vec![(
            "data",
            obj(vec![("persistent", obj(vec![(persistent_key, JsonValue::Bool(true))]))]),
        )])),
        precondition_id: None,
        default: None,
        overrides: None,
    }
}

/// A: 0..10000 with a choice window 2000..5000 (Left → L at 20000, Right →
/// R at 30000, default Right) and a tutorial at 1000..1500; L and R end the
/// story.
fn story() -> InteractiveBundle {
    InteractiveBundle {
        manifest_path: String::new(),
        info_path: String::new(),
        manifest: Manifest {
            kind: None,
            segments: vec![
                ("A".to_string(), seg(0, Some(10000), None)),
                ("L".to_string(), seg(20000, Some(25000), Some("END"))),
                ("R".to_string(), seg(30000, Some(35000), Some("END"))),
                ("END".to_string(), seg(40000, None, None)),
            ],
            initial_segment: "A".to_string(),
            viewable_id: None,
        },
        moments: MomentsValue {
            moments_by_segment: vec![(
                "A".to_string(),
                vec![
                    moment("notification:inlineTutorial", 1000, 1500, None),
                    moment(
                        "scene:cs_bs",
                        2000,
                        5000,
                        Some(vec![choice("Left", "L", "p_left"), choice("Right", "R", "p_right")]),
                    ),
                ],
            )],
            preconditions: vec![],
            segment_groups: vec![],
            state_history: None,
            audio_locale: None,
            kind: None,
        },
        info_video_id: None,
    }
}

fn start() -> (Shared, Driver, InteractiveBundle) {
    (Shared::new(7, "lib".to_string(), "Story".to_string(), "A".to_string()), Driver::new(), story())
}

#[test]
fn tutorial_then_choice_window_opens_with_snapshot() {
    let (mut sh, mut d, b) = start();
    let acts = d.fire_moments(&mut sh, &b, &[], 1200);
    assert_eq!(acts.len(), 1);
    assert!(matches!(&acts[0], Action::Notification { remaining_ms: 300, .. }));
    assert!(d.fire_moments(&mut sh, &b, &[], 1300).is_empty(), "fires once per visit");
    let acts = d.fire_moments(&mut sh, &b, &[], 2500);
    assert_eq!(acts.len(), 1);
    match &acts[0] {
        Action::ChoiceOpened(v) => {
            assert_eq!(v.choices.len(), 2);
            assert_eq!(v.choices[0].text, "Left");
            assert_eq!(v.default_index, 1);
            assert_eq!(v.remaining_ms, 2500);
            assert_eq!(v.total_ms, 3000);
        },
        _ => panic!("expected a choice window"),
    }
    assert_eq!(sh.snapshots.len(), 1);
    assert_eq!(sh.snapshots[0].story_ms, 2500);
    assert_eq!(sh.snapshots[0].choice_texts, vec!["Left".to_string(), "Right".to_string()]);
}

#[test]
fn first_pick_wins() {
    let (mut sh, mut d, b) = start();
    d.fire_moments(&mut sh, &b, &[], 2500);
    assert_eq!(sh.pick_choice(5), Err("Choice index out of range".to_string()));
    assert_eq!(sh.pick_choice(0), Ok(true));
    assert_eq!(sh.pending_target, Some("L".to_string()));
    assert_eq!(sh.pick_choice(1), Ok(false), "already committed");
    assert_eq!(sh.pending_target, Some("L".to_string()));
    assert!(sh.persistent.get("p_right").is_none());
}

#[test]
fn no_window_no_pick() {
    let (mut sh, _, _) = start();
    assert_eq!(sh.pick_choice(0), Err("No choice is open".to_string()));
}

#[test]
fn timeout_takes_the_default() {
    let (mut sh, mut d, b) = start();
    d.fire_moments(&mut sh, &b, &[], 2500);
    let acts = d.close_window(&mut sh, 3000, true);
    assert!(matches!(acts[..], [Action::ChoiceTick { remaining_ms: 2000 }]));
    let acts = d.close_window(&mut sh, 5000, false);
    assert_eq!(acts.len(), 3);
    assert!(matches!(acts[0], Action::SavePersistent));
    assert!(matches!(acts[1], Action::SaveResume { pos_ms: 5000 }));
    assert!(matches!(acts[2], Action::ChoiceClosed { selected_index: Some(1), timed_out: true }));
    assert!(sh.open.is_none());
    assert_eq!(sh.pending_target, Some("R".to_string()));
    assert!(matches!(sh.persistent.get("p_right"), Some(JsonValue::Bool(true))));
    assert_eq!(sh.snapshots[0].selected_index, Some(1));
}

#[test]
fn boundary_jumps_and_story_ends() {
    let (mut sh, mut d, b) = start();
    d.fire_moments(&mut sh, &b, &[], 2500);
    sh.pick_choice(0).unwrap();
    d.close_window(&mut sh, 5000, false);
    // Not yet at the boundary.
    let c = d.cross_boundary(&mut sh, &b, 9000);
    assert!(c.actions.is_empty() && c.seek_to.is_none());
    // Forward jump 10000 → 20000: seek at end - 24.
    let c = d.cross_boundary(&mut sh, &b, 9976);
    assert_eq!(c.seek_to, Some(20000));
    assert_eq!(c.jump, Some(("A".to_string(), "L".to_string())));
    assert!(matches!(&c.actions[0], Action::Segment { segment_id } if segment_id == "L"));
    assert!(matches!(c.actions[1], Action::SaveResume { pos_ms: 20000 }));
    assert_eq!(sh.current_segment, "L");
    assert_eq!(sh.path, vec!["A".to_string(), "L".to_string()]);
    assert_eq!(sh.story_base_ms, 10000);
    assert_eq!(sh.metrics.jumps, 1);
    assert_eq!(sh.metrics.seek_jumps, 1);
    assert!(d.fired.ids.is_empty());
    // L → END is a seek too; END has no end: the story ends.
    let c = d.cross_boundary(&mut sh, &b, 24990);
    assert_eq!(c.seek_to, Some(40000));
    assert!(matches!(c.actions[1], Action::Ended));
    assert!(d.ended_emitted);
}

#[test]
fn prearm_sets_loop_for_backward_cut() {
    let (mut sh, mut d, mut b) = start();
    b.manifest.segments[0].1.default_next = Some("A".to_string());
    // Within 450 ms of the end: the jump back to A's start is armed as a loop.
    let r = d.prearm(&sh, &b, 9600);
    assert_eq!(r.set_loop, Some((0, 10000)));
    assert_eq!(d.armed, Some(("A".to_string(), 0)));
    // Already armed for the same target: nothing new.
    let r = d.prearm(&sh, &b, 9700);
    assert!(r.set_loop.is_none() && !r.drop_loop);
    // Outside the window nothing happens.
    let mut d2 = Driver::new();
    assert!(d2.prearm(&sh, &b, 5000).set_loop.is_none());
    // With the loop live, the crossing at the boundary settles on the loop's landing.
    d.loop_live = true;
    let c = d.cross_boundary(&mut sh, &b, 9990);
    assert_eq!(c.settle_to, Some(0));
    assert_eq!(sh.metrics.last_latency_ms, Some(0));
}

#[test]
fn skips_stay_inside_the_span() {
    let (mut sh, mut d, b) = start();
    let mut fired = Fired::new();
    // +10 s from 500 ms stops at the unopened choice window (2000) and applies
    // nothing it passes but the tutorial's (no writes).
    sh.request_skip(10_000);
    let out = sh.handle_requests(&b, 500, &mut fired);
    assert_eq!(out.seek_ms, Some(2000));
    assert!(fired.ids.contains(&0));
    // -10 s clamps at the segment start; a tiny step is dropped.
    sh.request_skip(-10_000);
    let out = sh.handle_requests(&b, 1500, &mut fired);
    assert_eq!(out.seek_ms, Some(0));
    sh.request_skip(-100);
    assert_eq!(sh.handle_requests(&b, 1500, &mut fired).seek_ms, None);
    // Dead inside an unopened choice window.
    sh.request_skip(10_000);
    assert_eq!(sh.handle_requests(&b, 2500, &mut fired).seek_ms, None);
    // Dead while a window is open.
    d.fire_moments(&mut sh, &b, &[], 2500);
    sh.request_skip(10_000);
    assert_eq!(sh.handle_requests(&b, 2600, &mut fired).seek_ms, None);
    // Clamped to a minute.
    sh.request_skip(1_000_000);
    assert_eq!(sh.skip_request_ms, Some(60_000));
}

#[test]
fn rewind_restores_a_decision() {
    let (mut sh, mut d, b) = start();
    d.fire_moments(&mut sh, &b, &[], 2500);
    sh.pick_choice(0).unwrap();
    d.close_window(&mut sh, 5000, false);
    d.cross_boundary(&mut sh, &b, 9976);
    assert_eq!(sh.request_rewind(3), Err("No such decision point".to_string()));
    sh.request_rewind(0).unwrap();
    let mut fired = Fired::new();
    fired.insert(1);
    let out = sh.handle_requests(&b, 21000, &mut fired);
    assert_eq!(out.seek_ms, Some(0), "2.5 s before the window, not before the segment");
    assert_eq!(out.rewound_to, Some("A".to_string()));
    assert!(out.save_persistent);
    assert_eq!(sh.current_segment, "A");
    assert!(sh.persistent.get("p_left").is_none(), "state as it was before the choice");
    assert_eq!(sh.path, vec!["A".to_string()]);
    assert_eq!(sh.rewound_index, Some(0));
    assert!(fired.ids.is_empty());
    // Story time restarts from the snapshot's story time, counted from the window's opening.
    assert_eq!(sh.story_base_ms, 500);
    let history = sh.history();
    assert_eq!(history.len(), 1);
    assert_eq!(history[0].selected_index, Some(0));
    // Re-deciding cuts the abandoned future.
    d.fired.clear();
    d.fire_moments(&mut sh, &b, &[], 2500);
    assert_eq!(sh.snapshots.len(), 1);
    assert_eq!(sh.rewound_index, None);
}

#[test]
fn status_and_debug() {
    let (mut sh, mut d, b) = start();
    d.fire_moments(&mut sh, &b, &[], 2500);
    let st = sh.status(Some(4000));
    assert_eq!(st.segment_id, "A");
    assert_eq!(st.choice.unwrap().remaining_ms, 1000);
    sh.persistent.insert("a".to_string(), JsonValue::Bool(true));
    sh.persistent.insert("b".to_string(), JsonValue::Int(0));
    sh.persistent.insert("a".to_string(), JsonValue::Int(3));
    let dbg = sh.debug(Some(4000));
    assert_eq!(dbg.story_ms, Some(4000));
    assert!(dbg.choice_open);
    assert_eq!(dbg.persistent_set, 1);
    assert_eq!(dbg.snapshot_count, 1);
}

#[test]
fn periodic_outputs_and_cadence() {
    let (sh, d, _) = start();
    let acts = d.periodic(&sh, "A", 0, 1234, true, true);
    assert!(matches!(acts[0], Action::SaveResume { pos_ms: 1234 }));
    assert!(matches!(acts[1], Action::Clock { story_ms: 1234 }));
    assert!(d.periodic(&sh, "B", 0, 1234, false, true).is_empty());
    assert_eq!(poll_interval_ms(Some(10000), 9950), 4);
    assert_eq!(poll_interval_ms(Some(10000), 5000), 15);
    assert!(matches!(settle_step(1000, 900, false, 10, false), SettleStep::Landed));
    assert!(matches!(settle_step(1000, 9000, false, 10, false), SettleStep::Wait));
    assert!(matches!(settle_step(1000, 9000, false, 1500, true), SettleStep::Repair));
}
