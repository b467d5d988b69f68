use waverunner::music::{plan_music_rescan, ParentRef};

fn s(x: &str) -> String {
    x.to_string()
}

#[test]
fn music_rescan_plans_deletes_and_adds() {
    let disk_artists = vec![s("A"), s("B")];
    let disk_albums = vec![(s("A/Old"), s("A")), (s("A/New"), s("A")), (s("B/First"), s("B"))];
    let disk_tracks = vec![
        (s("A/Old/01.flac"), s("A/Old")),
        (s("A/New/01.flac"), s("A/New")),
        (s("B/First/02.mp3"), s("B/First")),
        (s("B/First/02.mp3"), s("B/First")),
    ];
    let db_artists = vec![(1, s("A")), (2, s("Gone"))];
    let db_albums = vec![(10, s("A/Old")), (11, s("Gone/X"))];
    let db_tracks = vec![(100, s("A/Old/01.flac")), (101, s("Gone/X/01.flac"))];
    let r = plan_music_rescan(&disk_artists, &disk_albums, &disk_tracks, &db_artists, &db_albums, &db_tracks);
    assert_eq!(r.delete_tracks, vec![101]);
    assert_eq!(r.delete_albums, vec![11]);
    assert_eq!(r.delete_artists, vec![2]);
    assert_eq!(r.add_artists, vec![s("B")]);
    assert_eq!(r.add_albums, vec![(s("A/New"), ParentRef::Known(1)), (s("B/First"), ParentRef::Added(0))]);
    assert_eq!(
        r.add_tracks,
        vec![(s("A/New/01.flac"), ParentRef::Added(0)), (s("B/First/02.mp3"), ParentRef::Added(1))]
    );
}

#[test]
fn music_rescan_parent_missing_everywhere() {
    let r = plan_music_rescan(&[], &[(s("X/Y"), s("X"))], &[], &[], &[], &[]);
    assert_eq!(r.add_albums, vec![(s("X/Y"), ParentRef::Unknown)]);
    assert!(r.delete_artists.is_empty());
}
