use waverunner::credits::{
    check_webisode_kind, format_role_list, match_special, norm_match_title, role_works_body, role_works_cte, specials_show_id,
    strip_voice_marker, ACTOR_WORKS,
};

fn roles(v: &[&str]) -> Vec<String> {
    v.iter().map(|s| s.to_string()).collect()
}

#[test]
fn role_list_forms() {
    assert_eq!(format_role_list("as", &[]), None);
    assert_eq!(format_role_list("as", &roles(&["Woody"])), Some("as Woody".to_string()));
    assert_eq!(format_role_list("as", &roles(&["A", "B"])), Some("as A & B".to_string()));
    assert_eq!(format_role_list("as", &roles(&["A", "B", "C"])), Some("as A, B, & C".to_string()));
    assert_eq!(
        format_role_list("Voice of", &roles(&["A", "B", "C", "D", "E"])),
        Some("Voice of A, B, & 3 more characters".to_string())
    );
}

#[test]
fn voice_marker_stripped() {
    assert_eq!(strip_voice_marker("Woody (voice)"), "Woody");
    assert_eq!(strip_voice_marker("Buzz  (Voice) / "), "Buzz");
    assert_eq!(strip_voice_marker("  Rex   Dinosaur  "), "Rex Dinosaur");
    assert_eq!(strip_voice_marker("Hamm"), "Hamm");
}

#[test]
fn normalized_titles() {
    assert_eq!(norm_match_title("The Office: Behind-the-Scenes!"), "the office behind the scenes");
    assert_eq!(norm_match_title("  Épisode   2 "), "épisode 2");
    assert_eq!(norm_match_title("!!!"), "");
}

#[test]
fn role_queries() {
    assert_eq!(role_works_body("actor"), Ok(ACTOR_WORKS));
    assert!(role_works_body("director_creator").is_ok());
    assert!(role_works_body("composer").is_ok());
    assert!(role_works_body("all").is_ok());
    assert_eq!(role_works_body("gaffer"), Err("Invalid role: gaffer".to_string()));
    assert_eq!(role_works_cte("actor"), Ok(format!("WITH role_works AS ( {} )", ACTOR_WORKS)));
    assert_eq!(role_works_cte("Actor"), Err("Invalid role: Actor".to_string()));
}

#[test]
fn webisodes_match_specials() {
    let specials = vec![
        (1, "The Accountants: Kevin".to_string()),
        (2, "Blackmail".to_string()),
        (3, "".to_string()),
    ];
    assert_eq!(match_special("S00E02 - Something.mkv", &specials), Some(1));
    assert_eq!(match_special("1. The Accountants - Kevin", &specials), Some(0));
    assert_eq!(match_special("Blackmail (Part 1)", &specials), Some(1));
    assert_eq!(match_special("Unrelated", &specials), None);
    assert_eq!(match_special("S00E09.mkv", &specials), None);
}

#[test]
fn webisode_sources() {
    assert_eq!(check_webisode_kind(&Some("webisodes".to_string())), Ok(()));
    assert_eq!(
        check_webisode_kind(&Some("featurettes".to_string())),
        Err("TMDB only catalogs webisodes \u{2014} there's no metadata source for this type of extra.".to_string())
    );
    assert!(check_webisode_kind(&None).is_err());
    assert_eq!(specials_show_id(Some(Some(2316))), Ok(2316));
    assert_eq!(specials_show_id(Some(None)), Err("Match this show to TMDB first.".to_string()));
    assert_eq!(specials_show_id(None), Err("Webisode metadata is only available for TV shows.".to_string()));
}
