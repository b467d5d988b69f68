use waverunner::people::{
    composer_credit, coverage_credit_line, director_credit, entry_roles, person_role_display, show_coverage, split_roles,
};

fn strings(v: &[&str]) -> Vec<String> {
    v.iter().map(|s| s.to_string()).collect()
}

#[test]
fn director_credit_levels() {
    assert_eq!(director_credit(true, true, Some((1, 0)), 1).as_deref(), Some("director"));
    assert_eq!(director_credit(false, true, Some((1, 0)), 3).as_deref(), Some("creator"));
    assert_eq!(director_credit(false, false, Some((3, 4)), 3).as_deref(), Some("director"));
    assert_eq!(director_credit(false, false, Some((2, 4)), 3).as_deref(), Some("director of 2 seasons"));
    assert_eq!(director_credit(false, false, Some((1, 0)), 3).as_deref(), Some("director of 1 season"));
    assert_eq!(director_credit(false, false, Some((0, 1)), 3).as_deref(), Some("director of 1 episode"));
    assert_eq!(director_credit(false, false, Some((0, 5)), 3).as_deref(), Some("director of 5 episodes"));
    assert_eq!(director_credit(false, false, Some((0, 0)), 3), None);
    assert_eq!(director_credit(false, false, None, 3), None);
}

#[test]
fn composer_credit_levels() {
    assert_eq!(composer_credit(true, None, 0).as_deref(), Some("composer"));
    assert_eq!(composer_credit(false, Some((2, 0)), 2).as_deref(), Some("composer"));
    assert_eq!(composer_credit(false, Some((0, 2)), 2).as_deref(), Some("composer of 2 episodes"));
    assert_eq!(coverage_credit_line("writer", Some((4, 9)), 5).as_deref(), Some("writer of 4 seasons"));
}

#[test]
fn coverage_counts_full_and_partial_seasons() {
    // (show, episodes in season, episodes directed)
    let rows = vec![(1, 10, 10), (1, 8, 3), (2, 5, 5), (1, 6, 6), (1, 0, 0), (1, 4, 2)];
    assert_eq!(show_coverage(&rows, 1), Some((2, 5)));
    assert_eq!(show_coverage(&rows, 2), Some((1, 0)));
    assert_eq!(show_coverage(&rows, 3), None);
}

#[test]
fn entry_roles_drop_blank_and_repeats() {
    let rows = vec![
        (7, Some("Walter White".to_string())),
        (8, Some("Other".to_string())),
        (7, Some("   ".to_string())),
        (7, None),
        (7, Some("Walter White".to_string())),
        (7, Some("Heisenberg".to_string())),
    ];
    assert_eq!(entry_roles(&rows, 7), strings(&["Walter White", "Heisenberg"]));
    assert!(entry_roles(&rows, 9).is_empty());
}

#[test]
fn roles_split_into_played_and_voiced() {
    let roles = strings(&["Bob", "Narrator (voice)", "Bob", "Narrator (Voice)", " (voice) ", "Alice"]);
    let (acting, voiced) = split_roles(&roles);
    assert_eq!(acting, strings(&["Bob", "Alice"]));
    assert_eq!(voiced, strings(&["Narrator"]));
}

#[test]
fn role_display_joins_parts() {
    let roles = strings(&["Walter White", "Dog (voice)", "Cat (voice)", "Fox (voice)", "Owl (voice)"]);
    assert_eq!(
        person_role_display(&roles, Some("director of 2 episodes".to_string()), None).as_deref(),
        Some("as Walter White · voices Dog, Cat, & 2 more characters · director of 2 episodes")
    );
    assert_eq!(person_role_display(&[], None, Some("composer".to_string())).as_deref(), Some("composer"));
    assert_eq!(person_role_display(&[], None, None), None);
}
