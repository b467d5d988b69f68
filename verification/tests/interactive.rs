use waverunner::choice::{choice_label, choice_target, fmt_ms, label_from_art, moment_is_choice, moment_window};
use waverunner::interactive::{
    detect_bundle_files, extract_moments, json_candidates, looks_like_manifest, pair_status, Choice,
    Classification, DirEntryInfo, GroupItem, InteractiveBundle, Manifest, ManifestSegment, Moment,
    MomentsValue, TimeoutSegment,
};
use waverunner::json::JsonValue;
use waverunner::validate::validate;

fn s(x: &str) -> JsonValue {
    JsonValue::Str(x.to_string())
}

fn obj(members: Vec<(&str, JsonValue)>) -> JsonValue {
    JsonValue::Object(members.into_iter().map(|(k, v)| (k.to_string(), v)).collect())
}

fn seg(start: i64, end: Option<i64>, default_next: Option<&str>) -> ManifestSegment {
    ManifestSegment {
        start_time_ms: start,
        end_time_ms: end,
        default_next: default_next.map(|d| d.to_string()),
        next: None,
        ui: None,
        story_end: None,
        credits: None,
    }
}

fn moment(kind: &str, id: &str, start: i64, end: i64, choices: Option<Vec<Choice>>) -> Moment {
    Moment {
        kind: Some(kind.to_string()),
        id: Some(id.to_string()),
        start_ms: Some(start),
        end_ms: Some(end),
        ui_display_ms: None,
        ui_interaction_start_ms: None,
        ui_hide_ms: None,
        choice_activation_threshold_ms: None,
        activation_window: None,
        default_choice_index: None,
        choices,
        impression_data: None,
        precondition_id: None,
        precondition: None,
        layout_type: None,
        header_text: None,
        body_text: None,
        timeout_segment: None,
    }
}

fn choice(id: &str, text: Option<&str>, target: Option<&str>) -> Choice {
    Choice {
        id: Some(id.to_string()),
        text: text.map(|t| t.to_string()),
        sub_text: None,
        background: None,
        segment_id: target.map(|t| t.to_string()),
        sg: None,
        start_time_ms: None,
        impression_data: None,
        precondition_id: None,
        default: None,
        overrides: None,
    }
}

fn bundle(segments: Vec<(&str, ManifestSegment)>, moments: Vec<(&str, Vec<Moment>)>) -> InteractiveBundle {
    InteractiveBundle {
        manifest_path: "story.json".to_string(),
        info_path: "info.json".to_string(),
        manifest: Manifest {
            kind: None,
            segments: segments.into_iter().map(|(k, v)| (k.to_string(), v)).collect(),
            initial_segment: "A".to_string(),
            viewable_id: None,
        },
        moments: MomentsValue {
            moments_by_segment: moments.into_iter().map(|(k, v)| (k.to_string(), v)).collect(),
            preconditions: vec![],
            segment_groups: vec![],
            state_history: None,
            audio_locale: None,
            kind: None,
        },
        info_video_id: None,
    }
}

#[test]
fn clean_graph_validates() {
    let b = bundle(
        vec![("A", seg(0, Some(1000), Some("B"))), ("B", seg(1000, None, None))],
        vec![("A", vec![moment("scene:cs_bs", "m1", 100, 900, Some(vec![choice("c1", Some("Yes"), Some("B"))]))])],
    );
    let r = validate(&b);
    assert!(r.ok(), "{:?}", r.errors);
    assert_eq!(r.segment_count, 2);
    assert_eq!(r.moment_segment_count, 1);
    assert_eq!(r.moment_count, 1);
    assert_eq!(r.choice_count, 1);
    assert_eq!(r.max_end_time_ms, 1000);
    assert!(r.warnings.is_empty());
}

#[test]
fn every_error_kind_is_reported() {
    let mut a = seg(-5, Some(-10), Some("X"));
    a.next = Some(vec!["Y".to_string()]);
    let mut m = moment("scene:x", "m1", 900, 100, Some(vec![choice("c1", None, Some("Q"))]));
    m.precondition_id = Some("nope".to_string());
    m.default_choice_index = Some(3);
    m.timeout_segment = Some(TimeoutSegment { segment_id: Some("T".to_string()) });
    let mut b = bundle(vec![("A", a), ("B", seg(0, None, Some("A")))], vec![("Z", vec![m])]);
    b.manifest.initial_segment = "START".to_string();
    b.moments.segment_groups = vec![(
        "g".to_string(),
        vec![
            GroupItem::Ref("R".to_string()),
            GroupItem::Segment { segment: "S".to_string(), precondition: Some("P".to_string()) },
            GroupItem::Group { segment_group: "H".to_string() },
        ],
    )];
    let r = validate(&b);
    let expected = vec![
        "initialSegment 'START' not in segments",
        "segment 'A' has negative startTimeMs -5",
        "segment 'A' has invalid time range -5..-10",
        "segment 'A' defaultNext 'X' unresolved",
        "segment 'A' next target 'Y' unresolved",
        "segment 'B' has successors but no endTimeMs",
        "segmentGroup 'g' member 'R' unresolved",
        "segmentGroup 'g' member segment 'S' unresolved",
        "segmentGroup 'g' precondition 'P' unresolved",
        "segmentGroup 'g' nested group 'H' unresolved",
        "momentsBySegment key 'Z' not in manifest segments",
        "moment 'm1' on 'Z' preconditionId 'nope' unresolved",
        "moment 'm1' on 'Z' has invalid window 900..100",
        "moment 'm1' on 'Z' defaultChoiceIndex 3 out of range (choices: 1)",
        "moment 'm1' on 'Z' timeoutSegment 'T' unresolved",
        "choice 'c1' on 'Z' target 'Q' unresolved",
    ];
    assert_eq!(r.errors, expected);
    assert!(!r.ok());
}

#[test]
fn warnings_and_mismatched_pairs() {
    let mut c = choice("c1", Some("Go"), Some("B"));
    c.start_time_ms = Some(1234);
    let no_target = choice("c2", Some("Stay"), None);
    let b0 = bundle(
        vec![("A", seg(0, Some(1000), Some("B"))), ("B", seg(1000, Some(2000), None))],
        vec![("A", vec![moment("scene:x", "m1", 500, 1500, Some(vec![c, no_target]))])],
    );
    let mut b = b0;
    b.manifest.viewable_id = Some(42);
    b.info_video_id = Some("43".to_string());
    let r = validate(&b);
    assert_eq!(
        r.errors,
        vec!["choice 'c1' on 'A': startTimeMs 1234 disagrees with segment 'B' start 1000 \u{2014} files may be a mismatched pair"]
    );
    assert_eq!(
        r.warnings,
        vec![
            "viewableId mismatch: manifest 42 vs info 43",
            "moment 'm1' window 500..1500 outside segment 'A' 0..Some(1000)",
            "choice 'c2' on 'A' has no segment target",
        ]
    );
}

#[test]
fn moments_and_choices() {
    let m = moment("scene:cs_bs", "m1", 100, 900, Some(vec![choice("c1", Some("Yes"), Some("B"))]));
    assert!(moment_is_choice(&m));
    assert_eq!(moment_window(&m), Some((100, 900)));
    let mut tut = moment("notification:inlineTutorial", "t", 100, 100, None);
    assert!(!moment_is_choice(&tut));
    assert_eq!(moment_window(&tut), None, "an empty window is none");
    tut.ui_display_ms = Some(50);
    tut.ui_hide_ms = Some(70);
    assert_eq!(moment_window(&tut), Some((50, 70)));
    let mut c = choice("c9", None, None);
    c.sg = Some("grp".to_string());
    assert_eq!(choice_target(&c), Some("grp".to_string()));
    assert_eq!(choice_target(&choice("c", None, Some("S"))), Some("S".to_string()));
}

#[test]
fn labels_for_image_only_choices() {
    assert_eq!(label_from_art("netflix_2x.png"), "NETFLIX");
    assert_eq!(label_from_art("sugar-puffs_update_2.png"), "SUGAR PUFFS");
    assert_eq!(label_from_art("2x.png"), "");
    assert_eq!(label_from_art("choice_update_01-left.png"), "CHOICE LEFT");
    let mut c = choice("c1", Some(" "), None);
    c.background = Some(obj(vec![(
        "visualStates",
        obj(vec![(
            "default",
            obj(vec![(
                "image",
                obj(vec![
                    ("url", s("https://cdn.example/art/Frosties_2x.png")),
                    ("styles", obj(vec![("backgroundSize", s("cover"))])),
                ]),
            )]),
        )]),
    )]));
    assert_eq!(choice_label(&c), "FROSTIES");
    assert_eq!(choice_label(&choice("c2", Some("Yes"), None)), "Yes");
    assert_eq!(choice_label(&choice("c3", None, None)), "c3");
}

#[test]
fn clock_text() {
    assert_eq!(fmt_ms(0), "0:00:00");
    assert_eq!(fmt_ms(3_723_000), "1:02:03");
    assert_eq!(fmt_ms(59_999), "0:00:59");
    assert_eq!(fmt_ms(-5_000), "0:00:-5");
}

#[test]
fn files_are_told_apart_by_content() {
    let info = obj(vec![(
        "jsonGraph",
        obj(vec![(
            "videos",
            obj(vec![("80988062", obj(vec![("interactiveVideoMoments", obj(vec![("value", obj(vec![]))]))]))]),
        )]),
    )]);
    let manifest = obj(vec![
        ("initialSegment", s("A")),
        ("segments", obj(vec![("A", obj(vec![("startTimeMs", JsonValue::Int(0))]))])),
    ]);
    let (_, id) = extract_moments(&info).unwrap();
    assert_eq!(id, Some("80988062".to_string()));
    assert!(extract_moments(&manifest).is_none());
    assert!(looks_like_manifest(&manifest));
    assert!(!looks_like_manifest(&info));
    let mut c = Classification::new();
    c.offer("a.json".to_string(), obj(vec![]));
    assert_eq!(detect_bundle_files(&c), None);
    assert_eq!(pair_status(&c), Ok(false));
    c.offer("b.json".to_string(), manifest);
    assert_eq!(pair_status(&c), Err("found an interactive manifest but no info file (interactiveVideoMoments)".to_string()));
    c.offer("c.json".to_string(), info);
    assert!(c.is_complete());
    assert_eq!(detect_bundle_files(&c), Some(("b.json".to_string(), "c.json".to_string())));
}

#[test]
fn json_candidates_are_sorted_and_filtered() {
    let e = |name: &str, is_file: bool, size: u64| DirEntryInfo { name: name.to_string(), is_file, size };
    let list = vec![
        e("zeta.JSON", true, 10),
        e("movie.mkv", true, 10),
        e("alpha.json", true, 10),
        e(".json", true, 10),
        e("dir.json", false, 0),
        e("huge.json", true, 65 * 1024 * 1024),
    ];
    assert_eq!(json_candidates(&list), vec!["alpha.json".to_string(), "zeta.JSON".to_string()]);
}
