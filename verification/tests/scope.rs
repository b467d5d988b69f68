use waverunner::catalog::{collection_display, year_span_end};
use waverunner::scope::{
    clean_rater_id, entry_type_filter, list_order, listing_scope, parse_scope_key, playlist_scope, preset_to_apply, scope_key,
    reorder_preset_target, sort_target, EntryType, ListOrder, Scope, SortTarget,
};
use waverunner::text::parse_i64;

fn same(a: &Scope, b: &Scope) -> bool {
    match (a, b) {
        (Scope::LibRoot(x), Scope::LibRoot(y))
        | (Scope::MoviesOnly(x), Scope::MoviesOnly(y))
        | (Scope::ShowsOnly(x), Scope::ShowsOnly(y))
        | (Scope::Playlists(x), Scope::Playlists(y)) => x == y,
        (Scope::LibColl(x), Scope::LibColl(y)) | (Scope::PlRoot(x), Scope::PlRoot(y)) | (Scope::PlColl(x), Scope::PlColl(y)) => {
            x == y
        },
        _ => false,
    }
}

#[test]
fn scope_keys_read() {
    assert!(same(&parse_scope_key("lib-root:abc").unwrap(), &Scope::LibRoot("abc".to_string())));
    assert!(same(&parse_scope_key("movies-only:l:1").unwrap(), &Scope::MoviesOnly("l:1".to_string())));
    assert!(same(&parse_scope_key("lib-coll:42").unwrap(), &Scope::LibColl(42)));
    assert!(same(&parse_scope_key("pl-root:+7").unwrap(), &Scope::PlRoot(7)));
    assert!(same(&parse_scope_key("pl-coll:-3").unwrap(), &Scope::PlColl(-3)));
    assert!(same(&parse_scope_key("playlists:").unwrap(), &Scope::Playlists(String::new())));
}

#[test]
fn scope_key_errors() {
    assert_eq!(parse_scope_key("lib-root").err(), Some("Invalid scope_key".to_string()));
    assert_eq!(parse_scope_key("lib-coll:x").err(), Some("Invalid collection id in scope_key".to_string()));
    assert_eq!(parse_scope_key("pl-root:").err(), Some("Invalid playlist id in scope_key".to_string()));
    assert_eq!(
        parse_scope_key("pl-coll:99999999999999999999").err(),
        Some("Invalid playlist-collection id in scope_key".to_string())
    );
    assert_eq!(parse_scope_key("nope:1").err(), Some("Unknown scope_key prefix: nope".to_string()));
}

#[test]
fn scope_key_round_trip() {
    let scopes = vec![
        Scope::LibRoot("lib_1".to_string()),
        Scope::MoviesOnly("a:b".to_string()),
        Scope::ShowsOnly(String::new()),
        Scope::LibColl(i64::MIN),
        Scope::PlRoot(0),
        Scope::PlColl(i64::MAX),
        Scope::Playlists("x".to_string()),
    ];
    for s in &scopes {
        let k = scope_key(s);
        assert!(same(&parse_scope_key(&k).unwrap(), s), "{}", k);
    }
    assert_eq!(scope_key(&Scope::LibColl(12)), "lib-coll:12");
    assert_eq!(scope_key(&Scope::Playlists("L".to_string())), "playlists:L");
}

#[test]
fn integer_parsing_matches_std() {
    for t in ["0", "-0", "+5", "-9223372036854775808", "9223372036854775807", "9223372036854775808", "", "-", "+", "1a", " 1"] {
        assert_eq!(parse_i64(t), t.parse::<i64>().ok(), "{}", t);
    }
}

#[test]
fn listing_scopes_and_orders() {
    assert_eq!(entry_type_filter(None), Ok(None));
    assert!(entry_type_filter(Some("movie")) == Ok(Some(EntryType::Movie)));
    assert!(entry_type_filter(Some("collection")) == Ok(Some(EntryType::Collection)));
    assert_eq!(entry_type_filter(Some("album")).err(), Some("Invalid entry_type_filter: album".to_string()));
    assert!(same(&listing_scope("L", Some(EntryType::Movie), Some(3)), &Scope::MoviesOnly("L".to_string())));
    assert!(same(&listing_scope("L", Some(EntryType::Show), None), &Scope::ShowsOnly("L".to_string())));
    assert!(same(&listing_scope("L", Some(EntryType::Collection), Some(3)), &Scope::LibColl(3)));
    assert!(same(&listing_scope("L", None, None), &Scope::LibRoot("L".to_string())));
    assert!(same(&playlist_scope(5, Some(9)), &Scope::PlColl(9)));
    assert!(same(&playlist_scope(5, None), &Scope::PlRoot(5)));
    assert!(list_order("year") == ListOrder::ByDate);
    assert!(list_order("date") == ListOrder::ByDate);
    assert!(list_order("custom") == ListOrder::Custom);
    assert!(list_order("alpha") == ListOrder::ByTitle);
    assert_eq!(preset_to_apply("custom", Some(4)), Some(4));
    assert_eq!(preset_to_apply("alpha", Some(4)), None);
}

#[test]
fn collection_subtitles() {
    assert_eq!(collection_display(0, 0), "empty");
    assert_eq!(collection_display(1, 0), "1 movie");
    assert_eq!(collection_display(3, 1), "3 movies and 1 show");
    assert_eq!(collection_display(0, 2), "2 shows");
    assert_eq!(year_span_end(&Some("2014".to_string()), &Some("2014".to_string())), None);
    assert_eq!(year_span_end(&Some("2014".to_string()), &Some("2016".to_string())), Some("2016".to_string()));
    assert_eq!(year_span_end(&None, &Some("2016".to_string())), None);
}

#[test]
fn sort_mode_targets() {
    assert_eq!(sort_target("video", Some(4), None, "date"), Ok(SortTarget::Collection(4)));
    assert_eq!(sort_target("video", None, None, "alpha"), Ok(SortTarget::LibraryRoot));
    assert_eq!(sort_target("video", None, Some("movies-only"), "custom"), Ok(SortTarget::MoviesOnly));
    assert_eq!(sort_target("video", None, Some("shows-only"), "custom"), Ok(SortTarget::ShowsOnly));
    assert_eq!(sort_target("video", None, Some("albums"), "custom"), Err("Invalid scope_kind: albums".to_string()));
    assert_eq!(sort_target("music", Some(4), None, "alpha"), Ok(SortTarget::MusicDefault));
    assert_eq!(sort_target("music", None, None, "alpha"), Ok(SortTarget::MusicDefault));
    assert_eq!(sort_target("photo", Some(4), None, "alpha"), Err("Unsupported library format: photo".to_string()));
    assert_eq!(sort_target("video", None, None, "year"), Err("Invalid sort mode".to_string()));
}

#[test]
fn rater_ids_are_trimmed() {
    assert_eq!(clean_rater_id(Some("  tt0078748 ".to_string())), Some("tt0078748".to_string()));
    assert_eq!(clean_rater_id(Some("   ".to_string())), None);
    assert_eq!(clean_rater_id(None), None);
}

#[test]
fn reorders_clear_the_right_preset() {
    assert_eq!(reorder_preset_target(Some(9), Some("movies-only")), SortTarget::Collection(9));
    assert_eq!(reorder_preset_target(None, Some("movies-only")), SortTarget::MoviesOnly);
    assert_eq!(reorder_preset_target(None, Some("shows-only")), SortTarget::ShowsOnly);
    assert_eq!(reorder_preset_target(None, Some("other")), SortTarget::LibraryRoot);
    assert_eq!(reorder_preset_target(None, None), SortTarget::LibraryRoot);
}
