use waverunner::migrate::{backup_extension, pending_migrations};
use waverunner::scan::{
    classify_folder, entry_kind, episode_file_before, flat_file_before, flat_layout, flat_season_files,
    flat_season_number, flat_season_title, has_season_dir, plan_entry_rescan, plan_episodes, plan_flat_seasons,
    plan_folder_seasons, season_dir_before, sorted_distinct, track_file_before, FolderClass, ScanKind,
};

fn strings(v: &[&str]) -> Vec<String> {
    v.iter().map(|s| s.to_string()).collect()
}

#[test]
fn folder_classes_follow_the_tag() {
    assert!(classify_folder(ScanKind::Show, true, true) == FolderClass::Show);
    assert!(classify_folder(ScanKind::Show, false, true) == FolderClass::FlatShow);
    assert!(classify_folder(ScanKind::Show, false, false) == FolderClass::Container);
    assert!(classify_folder(ScanKind::Movie, true, false) == FolderClass::Container);
    assert!(classify_folder(ScanKind::Movie, true, true) == FolderClass::Movie);
    assert_eq!(entry_kind(FolderClass::FlatShow), Some(true));
    assert_eq!(entry_kind(FolderClass::Movie), Some(false));
    assert_eq!(entry_kind(FolderClass::Container), None);
}

#[test]
fn season_folders_detected() {
    assert!(has_season_dir(&strings(&["Extras", "Season 1"])));
    assert!(has_season_dir(&strings(&["Specials"])));
    assert!(!has_season_dir(&strings(&["Bonus", "Behind the scenes"])));
    assert!(!has_season_dir(&[]));
}

#[test]
fn season_and_episode_ordering() {
    assert!(season_dir_before("Season 2", "Season 10"));
    assert!(!season_dir_before("Season 10", "Season 2"));
    assert!(season_dir_before("Specials", "Season 1"));
    assert!(season_dir_before("Bonus", "Season 1"), "no number on one side: by name");
    assert!(!season_dir_before("Season 1", "Season 1"));
    assert!(episode_file_before("Show S01E02.mkv", "Show S01E10.mkv"));
    assert!(episode_file_before("a.mkv", "b.mkv"));
    assert!(track_file_before("2 - B.flac", "10 - A.flac"));
    assert!(track_file_before("Intro.flac", "Outro.flac"));
}

#[test]
fn flat_files_sort_by_season_then_episode_then_name() {
    assert_eq!(flat_season_number("Show S02E01.mkv"), 2);
    assert_eq!(flat_season_number("Pilot.mkv"), 1);
    assert!(flat_file_before("Show S01E05.mkv", "Show S02E01.mkv"));
    assert!(flat_file_before("Show S01E02.mkv", "Show S01E10.mkv"));
    assert!(flat_file_before("Pilot.mkv", "Show S01E01.mkv"), "no episode number sorts first");
    let mut files = strings(&["Show S02E01.mkv", "Show S01E02.mkv", "Pilot.mkv", "Show S01E01.mkv"]);
    files.sort_by(|a, b| {
        if flat_file_before(a, b) {
            std::cmp::Ordering::Less
        } else if flat_file_before(b, a) {
            std::cmp::Ordering::Greater
        } else {
            std::cmp::Ordering::Equal
        }
    });
    assert_eq!(files, strings(&["Pilot.mkv", "Show S01E01.mkv", "Show S01E02.mkv", "Show S02E01.mkv"]));
}

#[test]
fn flat_layout_numbers_seasons_and_episodes() {
    let files = strings(&["Pilot.mkv", "Show S01E01.mkv", "Show S01E02.mkv", "Show S00E01.mkv", "Show S02E01.mkv"]);
    let slots = flat_layout(&files);
    let got: Vec<(i32, i32, i32)> = slots.iter().map(|s| (s.season, s.season_order, s.episode_order)).collect();
    assert_eq!(got, vec![(1, 0, 0), (1, 0, 1), (1, 0, 2), (0, 1, 0), (2, 2, 0)]);
    assert_eq!(flat_season_title(0), "Specials");
    assert_eq!(flat_season_title(3), "Season 3");
}

#[test]
fn entry_rescan_plan() {
    let disk = vec![
        ("Movies/Alien (1979)".to_string(), false),
        ("Shows/Office".to_string(), true),
        ("Movies/Brazil (1985)".to_string(), false),
        ("Movies/Heat (1995)".to_string(), false),
    ];
    let db = vec![
        (1, "Movies/Alien (1979)".to_string(), false),
        (2, "Movies/Gone".to_string(), false),
        (3, "Shows/Office".to_string(), false), // was a movie; now a show
        (4, "Movies/Heat (1995)".to_string(), false),
    ];
    let plan = plan_entry_rescan(&disk, &db);
    assert_eq!(plan.delete, vec![2, 3]);
    assert_eq!(
        plan.add,
        vec![("Movies/Brazil (1985)".to_string(), false), ("Shows/Office".to_string(), true)]
    );
    assert_eq!(
        plan.keep,
        vec![(1, "Movies/Alien (1979)".to_string()), (4, "Movies/Heat (1995)".to_string())]
    );
}

#[test]
fn entry_rescan_settles() {
    let disk = vec![("b".to_string(), true), ("a".to_string(), false)];
    let db = vec![(7, "a".to_string(), true), (8, "c".to_string(), false)];
    let plan = plan_entry_rescan(&disk, &db);
    assert_eq!(plan.delete, vec![7, 8]);
    // Carry the plan out, then rescan: nothing left to do.
    let mut next: Vec<(i64, String, bool)> = db.into_iter().filter(|r| !plan.delete.contains(&r.0)).collect();
    for (k, (p, show)) in plan.add.iter().enumerate() {
        next.push((100 + k as i64, p.clone(), *show));
    }
    let again = plan_entry_rescan(&disk, &next);
    assert!(again.delete.is_empty());
    assert!(again.add.is_empty());
    assert_eq!(again.keep.len(), 2);
}

#[test]
fn flat_season_rescan_plan() {
    let db = vec![
        (10, "Show".to_string(), Some(1)),
        (11, "Show".to_string(), Some(3)),
        (12, "Show/Season 2".to_string(), Some(2)),
        (13, "Show".to_string(), None),
    ];
    let (drop, add) = plan_flat_seasons("Show", &[1, 2, 1, 0], &db);
    assert_eq!(drop, vec![11, 12, 13]);
    let got: Vec<(i32, String, i32)> = add.into_iter().map(|s| (s.number, s.title, s.sort_order)).collect();
    assert_eq!(got, vec![(0, "Specials".to_string(), 4), (2, "Season 2".to_string(), 5)]);
}

#[test]
fn folder_season_rescan_plan() {
    let dirs = strings(&["Show/Season 1", "Show/Season 2"]);
    let db = vec![(1, "Show/Season 1".to_string(), Some(1)), (2, "Show".to_string(), Some(1))];
    let (gone, present) = plan_folder_seasons(&dirs, &db);
    assert_eq!(gone, vec![2]);
    assert_eq!(present, vec![true, false]);
}

#[test]
fn episode_rescan_plan() {
    let disk = strings(&["S/e1.mkv", "S/e2.mkv", "S/e2.mkv", "S/e3.mkv"]);
    let db = vec![(1, "S/e1.mkv".to_string()), (2, "S/old.mkv".to_string())];
    let (gone, add) = plan_episodes(&disk, &db);
    assert_eq!(gone, vec![2]);
    assert_eq!(add, strings(&["S/e2.mkv", "S/e3.mkv"]));
}

#[test]
fn flat_season_members() {
    let seasons = [1, 2, 1, 0];
    assert_eq!(flat_season_files(&seasons, Some(1)), vec![0, 2]);
    assert_eq!(flat_season_files(&seasons, None), vec![0, 2]);
    assert_eq!(flat_season_files(&seasons, Some(0)), vec![3]);
    assert_eq!(flat_season_files(&seasons, Some(9)), Vec::<usize>::new());
    assert_eq!(sorted_distinct(&[3, 1, 3, 2, 1]), vec![1, 2, 3]);
}

#[test]
fn migrations_run_by_id() {
    assert_eq!(pending_migrations(&[1, 3, 2, 5, 4], 2), vec![1, 4, 3]);
    assert_eq!(pending_migrations(&[1, 2], 2), Vec::<usize>::new());
    assert_eq!(pending_migrations(&[4, 4, 1], 0), vec![2, 0, 1]);
    assert_eq!(backup_extension(3, 7), "v3-to-v7.bak");
    assert_eq!(backup_extension(0, -1), "v0-to-v-1.bak");
}
