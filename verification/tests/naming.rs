use waverunner::naming::{
    request_path,
    generate_sort_title, is_image_file, is_media_file, mime_for, parse_episode_filename, parse_episode_range,
    parse_folder_name, parse_season_folder_name, parse_season_number, parse_song_filename, video_extensions,
};

fn nums(name: &str) -> (Option<i32>, Option<i32>) {
    let (_, start, end) = parse_episode_range(name);
    (start, end)
}

#[test]
fn single_episodes() {
    assert_eq!(nums("Show - S01E01 - Pilot.mkv"), (Some(1), None));
    assert_eq!(nums("Show.S02E14.1080p.mkv"), (Some(14), None));
    assert_eq!(nums("Show 1x05.mkv"), (Some(5), None));
}

#[test]
fn multi_episode_forms() {
    assert_eq!(nums("Show - S01E01-E02 - Two.mkv"), (Some(1), Some(2)));
    assert_eq!(nums("Show.S01E01E02.1080p.mkv"), (Some(1), Some(2)));
    assert_eq!(nums("Show S01E01-02.mkv"), (Some(1), Some(2)));
    assert_eq!(nums("Show 1x01-1x02.mkv"), (Some(1), Some(2)));
    assert_eq!(nums("Show 1x01-02.mkv"), (Some(1), Some(2)));
    assert_eq!(nums("Show S01E01-E03.mkv"), (Some(1), Some(3)));
    assert_eq!(nums("Show S01E01-E02-E03.mkv"), (Some(1), Some(3)));
}

#[test]
fn resolution_and_quality_are_not_ranges() {
    assert_eq!(nums("Show S01E05-1080p.mkv"), (Some(5), None));
    assert_eq!(nums("Show.S01E05-720p.x264.mkv"), (Some(5), None));
    assert_eq!(nums("Show S01E05 1920x1080.mkv"), (Some(5), None));
    assert_eq!(nums("Movie (2020) 1920x1080.mkv"), (None, None));
}

#[test]
fn season_numbers() {
    assert_eq!(parse_season_number("Show - S01E01.mkv"), Some(1));
    assert_eq!(parse_season_number("Show.S02E05.1080p.mkv"), Some(2));
    assert_eq!(parse_season_number("Show 1x03.mkv"), Some(1));
    assert_eq!(parse_season_number("Show - Episode 1.mkv"), None);
    assert_eq!(parse_season_number("Show 1920x1080.mkv"), None);
}

#[test]
fn episode_range_keeps_the_stem() {
    let (stem, start, end) = parse_episode_range("Show - S01E01-E02 - Two.mkv");
    assert_eq!(stem, "Show - S01E01-E02 - Two");
    assert_eq!((start, end), (Some(1), Some(2)));
    let (stem, ep) = parse_episode_filename("Show.S02E14.1080p.mkv");
    assert_eq!(stem, "Show.S02E14.1080p");
    assert_eq!(ep, Some(14));
}

#[test]
fn folder_names() {
    assert_eq!(parse_folder_name("Alien (1979)"), ("Alien".to_string(), Some("1979".to_string())));
    assert_eq!(parse_folder_name("Alien"), ("Alien".to_string(), None));
    let (_, season) = parse_season_folder_name("Season 02");
    assert_eq!(season, Some(2));
}

#[test]
fn song_names() {
    let (title, track) = parse_song_filename("03 - Song.flac");
    assert_eq!(track, Some(3));
    assert_eq!(title, "Song");
}

#[test]
fn sort_titles_drop_articles() {
    assert_eq!(generate_sort_title("The Matrix", "en"), "matrix");
    assert_eq!(generate_sort_title("Matrix", "fr"), "matrix");
}

#[test]
fn media_and_image_files() {
    let exts = video_extensions();
    assert!(is_media_file(true, Some("MKV"), &exts));
    assert!(!is_media_file(false, Some("mkv"), &exts));
    assert!(!is_media_file(true, Some("txt"), &exts));
    assert!(is_image_file(Some("PNG")));
    assert!(!is_image_file(None));
    assert_eq!(mime_for(Some("jpg")), Some("image/jpeg"));
    assert_eq!(mime_for(Some("zzz")), None);
}

#[test]
fn season_found_exactly_when_episode_marker_found() {
    for name in [
        "Show.S02E05.mkv",
        "show 3x07.mp4",
        "Show - 1x02-1x03.avi",
        "Movie (2020).mkv",
        "s01.mkv",
        "100x2.mkv",
        "Show.S2E.mkv",
        "extras.mkv",
    ] {
        assert_eq!(parse_season_number(name).is_some(), parse_episode_range(name).1.is_some(), "{}", name);
    }
}

#[test]
fn request_path_strips_slash_and_decodes() {
    assert_eq!(request_path("/%2Fhome%2Fme%2Fa%20b.png"), "/home/me/a b.png");
    assert_eq!(request_path("/home/x.png"), "home/x.png");
    assert_eq!(request_path("x%41"), "xA");
    assert_eq!(request_path("//x"), "/x");
    assert_eq!(request_path(""), "");
    // invalid UTF-8 becomes the replacement character
    assert_eq!(request_path("/a%FF"), "a\u{FFFD}");
}

#[test]
fn parsers_read_the_last_piece_of_a_path() {
    let (stem, first, _) = parse_episode_range("shows/Show/Season 1/Show.S01E02.mkv");
    assert_eq!(stem, "Show.S01E02");
    assert_eq!(first, Some(2));
    assert_eq!(parse_season_number("shows/Show/Show.S03E01.mkv"), Some(3));
    assert_eq!(parse_song_filename("music/Artist/Album/03 - Song.flac"), ("Song".to_string(), Some(3)));
}
