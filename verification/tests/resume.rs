use waverunner::interactive::{Choice, Moment};
use waverunner::json::JsonValue;
use waverunner::ratings::{contains_str, dedup_sources, omdb_outcome, ratings_verdict, trim_end_matches, usable_imdb_id, OmdbOutcome};
use waverunner::interactive::{InteractiveBundle, Manifest, ManifestSegment, MomentsValue, StateHistory};
use waverunner::resume::{fresh_scopes, initial_seek, resume_landing, resume_point, resumed_story_base, validation_failure, video_fit};
use waverunner::session::Shared;
use waverunner::state::StateMap;
use waverunner::validate::ValidationReport;

fn choice(text: &str) -> Choice {
    Choice {
        id: Some(text.to_string()),
        text: Some(text.to_string()),
        sub_text: None,
        background: None,
        segment_id: Some("X".to_string()),
        sg: None,
        start_time_ms: None,
        impression_data: None,
        precondition_id: None,
        default: None,
        overrides: None,
    }
}

fn window(kind: &str, start: i64, end: i64) -> Moment {
    Moment {
        kind: Some(kind.to_string()),
        id: None,
        start_ms: Some(start),
        end_ms: Some(end),
        ui_display_ms: None,
        ui_interaction_start_ms: None,
        ui_hide_ms: None,
        choice_activation_threshold_ms: None,
        activation_window: None,
        default_choice_index: None,
        choices: Some(vec![choice("a"), choice("b")]),
        impression_data: None,
        precondition_id: None,
        precondition: None,
        layout_type: None,
        header_text: None,
        body_text: None,
        timeout_segment: None,
    }
}

fn obj(members: Vec<(&str, JsonValue)>) -> JsonValue {
    JsonValue::Object(members.into_iter().map(|(k, v)| (k.to_string(), v)).collect())
}

fn s(x: &str) -> JsonValue {
    JsonValue::Str(x.to_string())
}

fn pairs(o: OmdbOutcome) -> Vec<(String, String)> {
    match o {
        OmdbOutcome::Found(v) => v,
        OmdbOutcome::NotFound => panic!("expected ratings"),
    }
}

#[test]
fn resume_lands_with_a_cushion() {
    // Segment starts at 100000; choice window at +20000..+30000.
    let ms = vec![window("scene:cs_bs", 120000, 130000)];
    assert_eq!(resume_landing(10000, 100000, &ms, false), 6000);
    assert_eq!(resume_landing(2000, 100000, &ms, false), 0);
    assert_eq!(resume_landing(-5, 100000, &ms, false), 0);
    // Saved after the window closed: never land inside it.
    assert_eq!(resume_landing(31000, 100000, &ms, false), 30000);
    assert_eq!(resume_landing(40000, 100000, &ms, false), 36000);
    // Saved inside the window: re-present it, or skip past a committed pick.
    assert_eq!(resume_landing(25000, 100000, &ms, false), 19000);
    assert_eq!(resume_landing(25000, 100000, &ms, true), 30000);
    // Non-choice moments have no say.
    let note = vec![window("notification:inlineTutorial", 120000, 130000)];
    assert_eq!(resume_landing(25000, 100000, &note, false), 21000);
}

#[test]
fn video_must_fit_the_graph() {
    assert_eq!(video_fit(0, 1000), Err("Could not read the video's duration".to_string()));
    assert_eq!(video_fit(60_000, 62_000), Ok(()));
    assert_eq!(
        video_fit(60_000, 62_001),
        Err("Video/metadata mismatch: the branch graph runs to 0:01:02 but the video only lasts 0:01:00. The video and JSON files must come from the same source.".to_string())
    );
    assert_eq!(initial_seek(100), None);
    assert_eq!(initial_seek(101), Some(101));
}

#[test]
fn failed_validation_reports_first_error() {
    let mut r = ValidationReport {
        segment_count: 0,
        moment_segment_count: 0,
        moment_count: 0,
        choice_count: 0,
        precondition_count: 0,
        segment_group_count: 0,
        max_end_time_ms: 0,
        errors: vec![],
        warnings: vec!["w".to_string()],
    };
    assert_eq!(validation_failure(&r), None);
    r.errors = vec!["first".to_string(), "second".to_string()];
    assert_eq!(validation_failure(&r), Some("Interactive metadata failed validation: first".to_string()));
}

#[test]
fn omdb_answers() {
    let body = obj(vec![
        ("imdbRating", s("7.9")),
        (
            "Ratings",
            JsonValue::Array(vec![
                obj(vec![("Source", s("Internet Movie Database")), ("Value", s("7.9/10"))]),
                obj(vec![("Source", s("Rotten Tomatoes")), ("Value", s("94%"))]),
                obj(vec![("Source", s("Metacritic")), ("Value", s("89/100"))]),
                obj(vec![("Source", s("Rotten Tomatoes")), ("Value", s("N/A"))]),
            ]),
        ),
    ]);
    assert_eq!(
        pairs(omdb_outcome(&body).unwrap()),
        vec![
            ("imdb".to_string(), "7.9".to_string()),
            ("rotten_tomatoes".to_string(), "94%".to_string()),
            ("metacritic".to_string(), "89".to_string()),
        ]
    );
    let na = obj(vec![("imdbRating", s("N/A"))]);
    assert!(pairs(omdb_outcome(&na).unwrap()).is_empty());
    let limit = obj(vec![("Error", s("Request limit reached!"))]);
    assert_eq!(omdb_outcome(&limit).err(), Some("OMDB daily request limit reached \u{2014} try again tomorrow.".to_string()));
    let key = obj(vec![("Error", s("Invalid API key!"))]);
    assert_eq!(omdb_outcome(&key).err(), Some("OMDB rejected the API key \u{2014} check Settings.".to_string()));
    let missing = obj(vec![("Error", s("Incorrect IMDb ID."))]);
    assert!(matches!(omdb_outcome(&missing), Ok(OmdbOutcome::NotFound)));
}

#[test]
fn rating_helpers() {
    assert_eq!(trim_end_matches("89/100/100", "/100"), "89");
    assert_eq!(trim_end_matches("/100", "/100"), "");
    assert_eq!(trim_end_matches("7.9/10", "/100"), "7.9/10");
    assert!(contains_str("request limit reached", "limit"));
    assert!(!contains_str("lim", "limit"));
    assert!(contains_str("abc", ""));
    let d = dedup_sources(vec![
        ("imdb".to_string(), "1".to_string()),
        ("rt".to_string(), "2".to_string()),
        ("imdb".to_string(), "3".to_string()),
    ]);
    assert_eq!(d, vec![("imdb".to_string(), "1".to_string()), ("rt".to_string(), "2".to_string())]);
    assert_eq!(ratings_verdict(true, false, false), Ok(()));
    assert_eq!(ratings_verdict(false, true, false), Ok(()));
    assert_eq!(ratings_verdict(false, false, false), Err("No IMDb ID \u{2014} match to TMDB first.".to_string()));
    assert_eq!(ratings_verdict(false, false, true), Err("Ratings lookup failed.".to_string()));
    assert!(usable_imdb_id(&Some("tt0078748".to_string())));
    assert!(!usable_imdb_id(&Some("   ".to_string())));
    assert!(!usable_imdb_id(&None));
}

fn bundle_with(start: i64) -> InteractiveBundle {
    InteractiveBundle {
        manifest_path: String::new(),
        info_path: String::new(),
        manifest: Manifest {
            kind: None,
            segments: vec![(
                "A".to_string(),
                ManifestSegment {
                    start_time_ms: start,
                    end_time_ms: Some(start + 10_000),
                    default_next: None,
                    next: None,
                    ui: None,
                    story_end: None,
                    credits: None,
                },
            )],
            initial_segment: "A".to_string(),
            viewable_id: None,
        },
        moments: MomentsValue {
            moments_by_segment: vec![],
            preconditions: vec![],
            segment_groups: vec![],
            state_history: None,
            audio_locale: None,
            kind: None,
        },
        info_video_id: None,
    }
}

#[test]
fn checkpoints_and_resumes() {
    let b = bundle_with(50_000);
    let mut sh = Shared::new(1, "L".to_string(), "T".to_string(), "A".to_string());
    sh.story_base_ms = 7_000;
    let p = resume_point(&sh, &b, 53_000);
    assert_eq!(p.segment, "A");
    assert_eq!(p.offset_ms, 3_000);
    assert_eq!(p.story_ms, 10_000);
    let p = resume_point(&sh, &b, 40_000);
    assert_eq!((p.offset_ms, p.story_ms), (0, 7_000));
    sh.current_segment = "gone".to_string();
    let p = resume_point(&sh, &b, 40_000);
    assert_eq!((p.offset_ms, p.story_ms), (0, 7_000));
    assert_eq!(resumed_story_base(10_000, 3_000), 7_000);
    assert_eq!(resumed_story_base(10_000, -5), 10_000);
}

#[test]
fn fresh_playthrough_state() {
    let mut g = StateMap::new();
    g.insert("g".to_string(), JsonValue::Int(1));
    let mut p = StateMap::new();
    p.insert("seen".to_string(), JsonValue::Bool(false));
    p.insert("keep".to_string(), JsonValue::Int(5));
    let defaults = Some(StateHistory { global: g, persistent: p });
    let saved = vec![("seen".to_string(), JsonValue::Bool(true)), ("new".to_string(), JsonValue::Int(2))];
    let (global, persistent) = fresh_scopes(&defaults, &saved);
    assert!(matches!(global.get("g"), Some(JsonValue::Int(1))));
    assert!(matches!(persistent.get("seen"), Some(JsonValue::Bool(true))));
    assert!(matches!(persistent.get("keep"), Some(JsonValue::Int(5))));
    assert!(matches!(persistent.get("new"), Some(JsonValue::Int(2))));
    let (global, persistent) = fresh_scopes(&None, &vec![]);
    assert!(global.get("g").is_none());
    assert_eq!(persistent.entries().len(), 0);
}
