use waverunner::presence::{caa_release_url, episode_media, movie_media, music_media, poster_url, tmdb_button, tmdb_detail_url, track_artist};
use waverunner::presence::{send_wait_ms, Kind, Media, Msg, Transmit, Worker, ASSET_FILM, ASSET_LOGO, MIN_SEND_GAP_MS};

fn media(kind: Kind, details: &str, state: &str) -> Media {
    Media {
        kind,
        details: details.to_string(),
        state: state.to_string(),
        large_image: None,
        large_text: String::new(),
        button: None,
        duration_ms: 200_000,
        position_ms: 10_000,
        paused: false,
    }
}

fn send_plan(t: Transmit) -> waverunner::presence::ActivityPlan {
    match t {
        Transmit::Send(p) => p,
        _ => panic!("expected a card"),
    }
}

#[test]
fn set_media_then_transmit_sends_card() {
    let mut w = Worker::new(true);
    w.apply(Msg::SetMedia(media(Kind::Video, "Alien", "1979")), 0);
    assert!(w.dirty);
    let p = send_plan(w.transmit_step(true, false, 50_000));
    assert!(p.kind == Kind::Video);
    assert_eq!(p.details.as_deref(), Some("Alien"));
    assert_eq!(p.state.as_deref(), Some("1979"));
    assert_eq!(p.large_image, ASSET_LOGO);
    assert_eq!(p.small_image, ASSET_FILM);
    assert_eq!(p.large_text, None);
    assert_eq!(p.timestamps, Some((40_000, 240_000)));
    w.sent(true, Some(40_000));
    assert!(w.showing && !w.dirty);
    assert!(matches!(w.transmit_step(true, false, 60_000), Transmit::Idle));
}

#[test]
fn one_char_lines_are_padded_and_empty_lines_dropped() {
    let mut w = Worker::new(true);
    let mut m = media(Kind::Music, "X", "");
    m.large_text = "Album".to_string();
    m.large_image = Some("https://art/x.png".to_string());
    w.apply(Msg::SetMedia(m), 0);
    let p = send_plan(w.transmit_step(true, false, 0));
    assert_eq!(p.details.as_deref(), Some("X "));
    assert_eq!(p.state, None);
    assert_eq!(p.large_text.as_deref(), Some("Album"));
    assert_eq!(p.large_image, "https://art/x.png");
    assert_eq!(p.small_image, ASSET_LOGO);
}

#[test]
fn pause_clears_a_showing_card() {
    let mut w = Worker::new(true);
    w.apply(Msg::SetMedia(media(Kind::Music, "Song", "Artist")), 0);
    let _ = w.transmit_step(true, false, 0);
    w.sent(true, Some(-10_000));
    w.apply(Msg::Pause(Kind::Music, true), 5);
    assert!(w.dirty);
    assert!(matches!(w.transmit_step(true, false, 10), Transmit::Clear));
    assert!(!w.showing && !w.dirty);
    assert_eq!(w.shown_start_ms, None);
}

#[test]
fn updates_for_other_kind_are_ignored() {
    let mut w = Worker::new(true);
    w.apply(Msg::SetMedia(media(Kind::Music, "Song", "Artist")), 0);
    w.dirty = false;
    w.apply(Msg::Pause(Kind::Video, true), 0);
    w.apply(Msg::Stop(Kind::Video), 0);
    assert!(!w.dirty);
    assert!(w.desired.is_some());
    w.apply(Msg::Stop(Kind::Music), 0);
    assert!(w.desired.is_none() && w.dirty);
}

#[test]
fn tick_marks_seek_only_beyond_drift() {
    let mut w = Worker::new(true);
    w.apply(Msg::SetMedia(media(Kind::Video, "Alien", "1979")), 0);
    let _ = w.transmit_step(true, false, 100_000);
    w.sent(true, Some(90_000));
    // 100_000 - 90_000 = 10_000 expected position; 12_000 is within drift
    w.apply(Msg::Tick(Kind::Video, 12_000), 100_000);
    assert!(!w.dirty);
    assert_eq!(w.desired.as_ref().unwrap().position_ms, 12_000);
    // 20_000 is a seek
    w.apply(Msg::Tick(Kind::Video, 20_000), 100_000);
    assert!(w.dirty);
}

#[test]
fn duration_changes_beyond_slack_only() {
    let mut w = Worker::new(true);
    w.apply(Msg::SetMedia(media(Kind::Video, "Alien", "1979")), 0);
    w.dirty = false;
    w.apply(Msg::Duration(Kind::Video, 201_000), 0);
    assert!(!w.dirty);
    w.apply(Msg::Duration(Kind::Video, 300_000), 0);
    assert!(w.dirty);
    assert_eq!(w.desired.as_ref().unwrap().duration_ms, 300_000);
}

#[test]
fn unconfigured_drops_and_cooldown_waits() {
    let mut w = Worker::new(true);
    w.apply(Msg::SetMedia(media(Kind::Video, "Alien", "1979")), 0);
    assert!(matches!(w.transmit_step(true, true, 0), Transmit::Idle));
    assert!(w.dirty);
    assert!(matches!(w.transmit_step(false, false, 0), Transmit::Idle));
    assert!(!w.dirty);
}

#[test]
fn disabled_worker_clears() {
    let mut w = Worker::new(true);
    w.apply(Msg::SetMedia(media(Kind::Video, "Alien", "1979")), 0);
    let _ = w.transmit_step(true, false, 0);
    w.sent(true, None);
    w.set_enabled(false);
    assert!(matches!(w.transmit_step(true, false, 0), Transmit::Clear));
    w.heartbeat();
    assert!(w.dirty);
}

#[test]
fn send_gap() {
    assert_eq!(send_wait_ms(None), None);
    assert_eq!(send_wait_ms(Some(500)), Some(MIN_SEND_GAP_MS - 500));
    assert_eq!(send_wait_ms(Some(MIN_SEND_GAP_MS)), None);
}

#[test]
fn track_artist_prefers_credits_then_tag() {
    let credits = vec!["A".to_string(), "B".to_string(), "C".to_string()];
    assert_eq!(track_artist(&credits, Some("A;B".to_string())), Some("A, B, C".to_string()));
    assert_eq!(track_artist(&[], Some("Solo".to_string())), Some("Solo".to_string()));
    assert_eq!(track_artist(&[], Some(String::new())), None);
    assert_eq!(track_artist(&[], None), None);
}

#[test]
fn music_card() {
    let m = music_media(
        "Song".to_string(),
        "Band".to_string(),
        Some("Album".to_string()),
        Some("g-1".to_string()),
        None,
        Some(215),
    );
    assert!(m.kind == Kind::Music);
    assert_eq!(m.large_image.as_deref(), Some("https://coverartarchive.org/release-group/g-1/front-250"));
    assert_eq!(
        m.button,
        Some(("View on MusicBrainz".to_string(), "https://musicbrainz.org/release-group/g-1".to_string()))
    );
    assert_eq!(m.large_text, "Album");
    assert_eq!(m.duration_ms, 215_000);
    let m = music_media("S".to_string(), String::new(), None, Some("g".to_string()), Some("https://r".to_string()), None);
    assert_eq!(m.large_image.as_deref(), Some("https://r"));
    assert_eq!(m.large_text, "");
    assert_eq!(m.duration_ms, 0);
    let m = music_media("S".to_string(), String::new(), None, None, None, Some(i64::MAX));
    assert_eq!(m.large_image, None);
    assert_eq!(m.button, None);
    assert_eq!(m.duration_ms, i64::MAX);
}

#[test]
fn movie_card() {
    let m = movie_media(
        "Alien".to_string(),
        Some("1979-05-25".to_string()),
        Some("348".to_string()),
        Some("https://image.tmdb.org/t/p/w342/x.jpg".to_string()),
        Some(117),
    );
    assert!(m.kind == Kind::Video);
    assert_eq!(m.state, "1979");
    assert_eq!(m.large_text, "Alien (1979)");
    assert_eq!(m.button, Some(("View on TMDB".to_string(), "https://www.themoviedb.org/movie/348".to_string())));
    assert_eq!(m.duration_ms, 117 * 60_000);
    assert_eq!(movie_media("X".to_string(), None, None, None, None).state, "Movie");
    assert_eq!(movie_media("X".to_string(), Some("99".to_string()), Some(String::new()), None, None).state, "Movie");
    assert_eq!(movie_media("X".to_string(), Some("é123".to_string()), None, None, None).state, "é12");
    assert_eq!(movie_media("X".to_string(), Some("ab€".to_string()), None, None, None).state, "Movie");
    assert_eq!(movie_media("X".to_string(), None, Some(String::new()), None, None).button, None);
}

#[test]
fn episode_card() {
    let e = |s: Option<i64>, ep: Option<i64>, end: Option<i64>, t: &str| {
        episode_media("The Office".to_string(), Some("2316".to_string()), s, ep, end, t.to_string(), None, Some(22))
    };
    assert_eq!(e(Some(2), Some(1), None, "The Dundies").state, "S02E01 \u{2014} The Dundies");
    assert_eq!(e(Some(1), Some(1), Some(2), "").state, "S01E01-02");
    assert_eq!(e(None, Some(12), None, "Bonus").state, "E12 \u{2014} Bonus");
    assert_eq!(e(Some(1), None, None, "Loose").state, "Loose");
    assert_eq!(e(Some(1), Some(3), Some(3), "").state, "S01E03");
    let m = e(Some(1), Some(1), None, "Pilot");
    assert_eq!(m.details, "The Office");
    assert_eq!(m.large_text, "The Office");
    assert_eq!(m.button, Some(("View on TMDB".to_string(), "https://www.themoviedb.org/tv/2316".to_string())));
    assert_eq!(m.duration_ms, 22 * 60_000);
}

#[test]
fn urls() {
    assert_eq!(caa_release_url("r1"), "https://coverartarchive.org/release/r1/front-250");
    assert_eq!(poster_url("/p.jpg"), "https://image.tmdb.org/t/p/w342/p.jpg");
    assert_eq!(tmdb_detail_url("tv", "9"), "https://api.themoviedb.org/3/tv/9");
    assert_eq!(tmdb_button("movie", &None), None);
}
