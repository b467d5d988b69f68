use waverunner::expr::eval_expr;
use waverunner::interactive::{GroupItem, InteractiveBundle, Manifest, ManifestSegment, MomentsValue};
use waverunner::json::JsonValue;
use waverunner::session::Shared;
use waverunner::state::StateMap;

fn s(x: &str) -> JsonValue {
    JsonValue::Str(x.to_string())
}

fn arr(items: Vec<JsonValue>) -> JsonValue {
    JsonValue::Array(items)
}

fn obj(members: Vec<(&str, JsonValue)>) -> JsonValue {
    JsonValue::Object(members.into_iter().map(|(k, v)| (k.to_string(), v)).collect())
}

fn is_bool(v: &JsonValue, b: bool) -> bool {
    matches!(v, JsonValue::Bool(x) if *x == b)
}

fn seg(start: i64, end: Option<i64>, default_next: Option<&str>, next: Option<Vec<&str>>) -> ManifestSegment {
    ManifestSegment {
        start_time_ms: start,
        end_time_ms: end,
        default_next: default_next.map(|d| d.to_string()),
        next: next.map(|n| n.into_iter().map(|x| x.to_string()).collect()),
        ui: None,
        story_end: None,
        credits: None,
    }
}

fn state_read(scope: &str, key: &str) -> JsonValue {
    arr(vec![s(scope), s(key)])
}

fn eql(a: JsonValue, b: JsonValue) -> JsonValue {
    arr(vec![s("eql"), a, b])
}

fn mini_bundle() -> InteractiveBundle {
    let manifest = Manifest {
        kind: None,
        segments: vec![
            ("A".to_string(), seg(0, Some(1000), Some("B"), None)),
            ("B".to_string(), seg(1000, Some(2000), None, Some(vec!["C"]))),
            ("C".to_string(), seg(5000, Some(6000), Some("END"), None)),
            ("END".to_string(), seg(9000, None, None, None)),
        ],
        initial_segment: "A".to_string(),
        viewable_id: None,
    };
    let saw_it = eql(state_read("persistentState", "p_x"), JsonValue::Bool(true));
    let not_seen = arr(vec![s("not"), eql(state_read("persistentState", "p_x"), JsonValue::Bool(true))]);
    let both = arr(vec![
        s("and"),
        eql(state_read("persistentState", "p_x"), JsonValue::Bool(true)),
        eql(state_read("globalState", "g_y"), s("n")),
    ]);
    let moments = MomentsValue {
        moments_by_segment: vec![],
        preconditions: vec![
            ("sawIt".to_string(), saw_it),
            ("notSeen".to_string(), not_seen),
            ("both".to_string(), both),
        ],
        segment_groups: vec![
            (
                "A".to_string(),
                vec![
                    GroupItem::Segment { segment: "C".to_string(), precondition: Some("sawIt".to_string()) },
                    GroupItem::Ref("B".to_string()),
                ],
            ),
            ("outer".to_string(), vec![GroupItem::Group { segment_group: "inner".to_string() }]),
            (
                "inner".to_string(),
                vec![
                    GroupItem::Segment { segment: "END".to_string(), precondition: Some("notSeen".to_string()) },
                    GroupItem::Ref("C".to_string()),
                ],
            ),
        ],
        state_history: None,
        audio_locale: None,
        kind: None,
    };
    InteractiveBundle {
        manifest_path: String::new(),
        info_path: String::new(),
        manifest,
        moments,
        info_video_id: None,
    }
}

fn shared_on(segment: &str) -> Shared {
    Shared::new(1, "lib".to_string(), "t".to_string(), segment.to_string())
}

#[test]
fn evaluator_handles_bandersnatch_ops() {
    let mut g = StateMap::new();
    g.insert("g_y".to_string(), s("n"));
    let mut p = StateMap::new();
    p.insert("p_x".to_string(), JsonValue::Bool(true));
    let ev = |e: JsonValue| eval_expr(&e, &g, &p);
    assert!(is_bool(&ev(eql(state_read("persistentState", "p_x"), JsonValue::Bool(true))), true));
    assert!(is_bool(
        &ev(arr(vec![s("not"), eql(state_read("persistentState", "p_x"), JsonValue::Bool(true))])),
        false
    ));
    assert!(is_bool(
        &ev(arr(vec![s("and"), JsonValue::Bool(true), eql(state_read("globalState", "g_y"), s("n"))])),
        true
    ));
    assert!(is_bool(&ev(arr(vec![s("or"), JsonValue::Bool(false), JsonValue::Bool(false)])), false));
    // Missing keys read as null: eql is false, not a failure.
    assert!(is_bool(&ev(eql(state_read("persistentState", "nope"), JsonValue::Bool(true))), false));
}

#[test]
fn choice_target_beats_group_routing() {
    let bundle = mini_bundle();
    let mut sh = shared_on("A");
    sh.pending_target = Some("C".to_string());
    assert_eq!(sh.resolve_next(&bundle), Some("C".to_string()));
    // Consumed: the next resolution falls through to routing.
    assert!(sh.pending_target.is_none());
}

#[test]
fn group_routing_respects_preconditions() {
    let bundle = mini_bundle();
    // Segment A is also a group key: [C if sawIt, else B].
    let mut sh = shared_on("A");
    assert_eq!(sh.resolve_next(&bundle), Some("B".to_string()), "precondition fails → fallback member");
    sh.persistent.insert("p_x".to_string(), JsonValue::Bool(true));
    sh.current_segment = "A".to_string();
    assert_eq!(sh.resolve_next(&bundle), Some("C".to_string()), "precondition passes → gated member");
}

#[test]
fn default_next_and_next_map_fallbacks() {
    let bundle = mini_bundle();
    let mut sh = shared_on("C");
    assert_eq!(sh.resolve_next(&bundle), Some("END".to_string()), "defaultNext");
    let mut sh = shared_on("B");
    assert_eq!(sh.resolve_next(&bundle), Some("C".to_string()), "no defaultNext → next map");
    let mut sh = shared_on("END");
    assert_eq!(sh.resolve_next(&bundle), None, "terminal");
}

#[test]
fn nested_group_resolution() {
    let bundle = mini_bundle();
    let sh = shared_on("A");
    // outer → inner → END (notSeen passes on empty state)
    assert_eq!(sh.resolve_ref(&bundle, "outer", 8), Some("END".to_string()));
    let mut sh2 = shared_on("A");
    sh2.persistent.insert("p_x".to_string(), JsonValue::Bool(true));
    assert_eq!(sh2.resolve_ref(&bundle, "outer", 8), Some("C".to_string()));
}

#[test]
fn impression_merges_and_reports_persistent_changes() {
    let mut sh = shared_on("A");
    let imp = obj(vec![
        (
            "data",
            obj(vec![
                ("global", obj(vec![("g_a", JsonValue::Int(1))])),
                ("persistent", obj(vec![("p_b", JsonValue::Bool(true))])),
            ]),
        ),
        ("type", s("userState")),
    ]);
    assert!(sh.apply_impression(&imp), "first write dirties persistent");
    assert!(matches!(sh.global.get("g_a"), Some(JsonValue::Int(1))));
    assert!(matches!(sh.persistent.get("p_b"), Some(JsonValue::Bool(true))));
    assert!(!sh.apply_impression(&imp), "same values → not dirty");
    let global_only = obj(vec![("data", obj(vec![("global", obj(vec![("g_a", JsonValue::Int(2))]))]))]);
    assert!(!sh.apply_impression(&global_only), "global writes never dirty persistence");
    assert!(matches!(sh.global.get("g_a"), Some(JsonValue::Int(2))));
}

// --- more cases ------------------------------------------------------------

#[test]
fn segment_id_wins_over_group_of_same_name() {
    let bundle = mini_bundle();
    let sh = shared_on("B");
    // "A" is both a segment and a group: as a jump reference it is the segment.
    assert_eq!(sh.resolve_ref(&bundle, "A", 8), Some("A".to_string()));
    // As routing for the current segment it is the group.
    assert_eq!(sh.resolve_group(&bundle, "A", 8), Some("B".to_string()));
}

#[test]
fn routing_depth_runs_out() {
    let bundle = mini_bundle();
    let sh = shared_on("A");
    assert_eq!(sh.resolve_group(&bundle, "outer", 0), None);
    assert_eq!(sh.resolve_group(&bundle, "outer", 1), None, "inner needs a second level");
    assert_eq!(sh.resolve_group(&bundle, "outer", 2), Some("END".to_string()));
}

#[test]
fn unresolved_pending_target_is_consumed_and_falls_through() {
    let bundle = mini_bundle();
    let mut sh = shared_on("C");
    sh.pending_target = Some("nowhere".to_string());
    assert_eq!(sh.resolve_peek(&bundle), Some("END".to_string()));
    assert!(sh.pending_target.is_some(), "peeking consumes nothing");
    assert_eq!(sh.resolve_next(&bundle), Some("END".to_string()));
    assert!(sh.pending_target.is_none());
}

#[test]
fn next_map_takes_least_id() {
    let mut bundle = mini_bundle();
    bundle.manifest.segments[1].1.next = Some(vec!["Z".to_string(), "C".to_string(), "M".to_string()]);
    let mut sh = shared_on("B");
    assert_eq!(sh.resolve_next(&bundle), Some("C".to_string()));
}

#[test]
fn unknown_precondition_passes() {
    let bundle = mini_bundle();
    let sh = shared_on("A");
    assert!(sh.precondition_by_id(&bundle, "no-such-id"));
    assert!(!sh.precondition_by_id(&bundle, "sawIt"));
    assert!(sh.precondition_by_id(&bundle, "notSeen"));
}

#[test]
fn impression_applied_twice_changes_nothing_more() {
    let mut sh = shared_on("A");
    let imp = obj(vec![(
        "data",
        obj(vec![("persistent", obj(vec![("p_a", JsonValue::Int(3)), ("p_b", s("x"))]))]),
    )]);
    assert!(sh.apply_impression(&imp));
    assert!(!sh.apply_impression(&imp));
    assert!(matches!(sh.persistent.get("p_a"), Some(JsonValue::Int(3))));
}

#[test]
fn impression_without_data_is_ignored() {
    let mut sh = shared_on("A");
    let imp = obj(vec![("persistent", obj(vec![("p_a", JsonValue::Int(3))]))]);
    assert!(!sh.apply_impression(&imp));
    assert!(sh.persistent.get("p_a").is_none());
}
