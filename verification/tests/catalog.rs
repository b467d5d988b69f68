use waverunner::catalog::{check_collection_move, check_entry_move, check_media_link, check_new_library};
use waverunner::catalog::pick_backdrop;
use waverunner::catalog::{
    app_images_base, apply_library_preset_ordering, apply_playlist_preset_ordering,
    apply_playlists_list_preset_ordering, extract_latest_json_url, playlist_covers_dir, uuid_simple, MediaEntry,
    PlaylistSortItem, PlaylistSummary,
};
use waverunner::json::JsonValue;

fn entry(id: i64, link_id: Option<i64>) -> MediaEntry {
    MediaEntry {
        id,
        title: format!("t{}", id),
        year: None,
        end_year: None,
        folder_path: format!("f{}", id),
        parent_id: None,
        entry_type: "movie".to_string(),
        covers: vec![],
        selected_cover: None,
        child_count: 0,
        season_display: None,
        collection_display: None,
        role_display: None,
        tmdb_id: None,
        link_id,
    }
}

fn playlist(id: i64) -> PlaylistSummary {
    PlaylistSummary {
        id,
        title: format!("p{}", id),
        selected_cover: None,
        covers: vec![],
        movie_count: 0,
        show_count: 0,
        year: None,
        end_year: None,
    }
}

fn obj(members: Vec<(&str, JsonValue)>) -> JsonValue {
    JsonValue::Object(members.into_iter().map(|(k, v)| (k.to_string(), v)).collect())
}

fn s(x: &str) -> JsonValue {
    JsonValue::Str(x.to_string())
}

#[test]
fn library_preset_puts_saved_first_and_prunes_stale() {
    let entries = vec![entry(1, None), entry(2, None), entry(3, None), entry(4, None)];
    let (out, kept) = apply_library_preset_ordering(&[3, 9, 1], entries);
    let ids: Vec<i64> = out.iter().map(|e| e.id).collect();
    assert_eq!(ids, vec![3, 1, 2, 4]);
    assert_eq!(kept, vec![3, 1]);
    assert_eq!(out[0].title, "t3");
}

#[test]
fn library_preset_empty_keeps_order() {
    let entries = vec![entry(5, None), entry(2, None)];
    let (out, kept) = apply_library_preset_ordering(&[], entries);
    let ids: Vec<i64> = out.iter().map(|e| e.id).collect();
    assert_eq!(ids, vec![5, 2]);
    assert!(kept.is_empty());
}

#[test]
fn playlists_list_preset() {
    let pls = vec![playlist(10), playlist(20), playlist(30)];
    let (out, kept) = apply_playlists_list_preset_ordering(&[30, 40, 10], pls);
    let ids: Vec<i64> = out.iter().map(|p| p.id).collect();
    assert_eq!(ids, vec![30, 10, 20]);
    assert_eq!(kept, vec![30, 10]);
}

#[test]
fn playlist_preset_keys_links_and_collections_apart() {
    // entry 1 is a link to library entry 10; entry 2 is a collection; entry 3 links 30
    let items = vec![entry(1, Some(10)), entry(2, None), entry(3, Some(30))];
    let preset = [
        PlaylistSortItem::Collection { id: 2 },
        PlaylistSortItem::Link { id: 30 },
        PlaylistSortItem::Link { id: 99 },
        PlaylistSortItem::Link { id: 2 },
    ];
    let (out, kept) = apply_playlist_preset_ordering(&preset, items);
    let ids: Vec<i64> = out.iter().map(|e| e.id).collect();
    assert_eq!(ids, vec![2, 3, 1]);
    assert_eq!(kept.len(), 2);
    assert!(matches!(kept[0], PlaylistSortItem::Collection { id: 2 }));
    assert!(matches!(kept[1], PlaylistSortItem::Link { id: 30 }));
}

#[test]
fn latest_json_url_found() {
    let release = obj(vec![(
        "assets",
        JsonValue::Array(vec![
            obj(vec![("name", s("app.zip")), ("browser_download_url", s("https://x/app.zip"))]),
            obj(vec![("name", s("latest.json")), ("browser_download_url", s("https://x/latest.json"))]),
        ]),
    )]);
    assert_eq!(extract_latest_json_url(&release), Ok("https://x/latest.json".to_string()));
}

#[test]
fn latest_json_url_errors() {
    let none = obj(vec![("tag", s("v1"))]);
    assert_eq!(extract_latest_json_url(&none), Err("No assets in release".to_string()));
    let not_array = obj(vec![("assets", s("x"))]);
    assert_eq!(extract_latest_json_url(&not_array), Err("No assets in release".to_string()));
    let missing = obj(vec![("assets", JsonValue::Array(vec![obj(vec![("name", s("a.zip"))])]))]);
    assert_eq!(
        extract_latest_json_url(&missing),
        Err("latest.json not found in release assets".to_string())
    );
    let no_url = obj(vec![("assets", JsonValue::Array(vec![obj(vec![("name", s("latest.json"))])]))]);
    assert_eq!(
        extract_latest_json_url(&no_url),
        Err("latest.json not found in release assets".to_string())
    );
}

#[test]
fn image_dirs() {
    assert_eq!(playlist_covers_dir("playlist", 7), vec!["playlist_covers", "playlist-7"]);
    assert_eq!(playlist_covers_dir("collection", -3), vec!["playlist_covers", "collection--3"]);
    assert_eq!(app_images_base("lib_1"), vec!["added_images", "lib_1"]);
}

#[test]
fn uuid_is_lower_hex() {
    assert_eq!(uuid_simple(0), "0");
    assert_eq!(uuid_simple(255), "ff");
    assert_eq!(uuid_simple(0x1a2b3c), "1a2b3c");
    assert_eq!(uuid_simple(1_700_000_000_123_456_789), format!("{:x}", 1_700_000_000_123_456_789u128));
}

#[test]
fn backdrop_choice() {
    let cached = vec!["a.jpg".to_string(), "b.jpg".to_string()];
    assert_eq!(pick_backdrop(&[], Some("a.jpg".to_string())), None);
    assert_eq!(pick_backdrop(&cached, Some("b.jpg".to_string())), Some("b.jpg".to_string()));
    assert_eq!(pick_backdrop(&cached, Some("gone.jpg".to_string())), Some("a.jpg".to_string()));
    assert_eq!(pick_backdrop(&cached, None), Some("a.jpg".to_string()));
}

#[test]
fn new_library_rules() {
    let p = |path: &str, kind: &str| (path.to_string(), kind.to_string());
    assert_eq!(check_new_library("photo", "local", &[], &[]), Err("Unsupported library format: photo".to_string()));
    assert_eq!(check_new_library("video", "nas", &[], &[]), Err("Unsupported library source: nas".to_string()));
    assert_eq!(check_new_library("music", "local", &[], &[]), Err("At least one folder is required".to_string()));
    assert_eq!(
        check_new_library("video", "local", &[p("/m", "movie"), p("/s", "music")], &[true, true]),
        Err("Invalid folder kind 'music' for a video library".to_string())
    );
    assert_eq!(
        check_new_library("video", "local", &[p("/gone", "movie"), p("/s", "music")], &[false, true]),
        Err("Path does not exist: /gone".to_string())
    );
    assert_eq!(check_new_library("video", "local", &[p("/m", "movie"), p("/s", "show")], &[true, true]), Ok(()));
    assert_eq!(check_new_library("music", "local", &[p("/a", "music")], &[true]), Ok(()));
}

#[test]
fn moves_and_links() {
    assert_eq!(check_entry_move(5, Some(1), Some(1), &[]), Ok(false));
    assert_eq!(check_entry_move(5, None, Some(5), &[]), Err("Cannot move entry into itself".to_string()));
    assert_eq!(
        check_entry_move(5, None, Some(7), &[6, 5, 1]),
        Err("Cannot move entry into its own descendant".to_string())
    );
    assert_eq!(check_entry_move(5, Some(2), Some(7), &[6, 1]), Ok(true));
    assert_eq!(check_entry_move(5, Some(2), None, &[]), Ok(true));
    assert_eq!(
        check_collection_move(3, None, None),
        Err("Exactly one of parent_playlist_id or parent_collection_id must be set".to_string())
    );
    assert_eq!(check_collection_move(3, None, Some(3)), Err("Cannot move a collection into itself".to_string()));
    assert_eq!(check_collection_move(3, Some(1), None), Ok(()));
    assert_eq!(
        check_media_link("collection", "L", "L"),
        Err("Cannot add collection to a playlist \u{2014} only movies and shows can be linked".to_string())
    );
    assert_eq!(
        check_media_link("movie", "L1", "L2"),
        Err("Cross-library linking is not supported in this version".to_string())
    );
    assert_eq!(check_media_link("show", "L", "L"), Ok(()));
}
