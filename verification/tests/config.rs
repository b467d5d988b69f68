use waverunner::config::{check_cfg_exists, get_cfg_path, get_relative_cfg_path, new_config, safe_new_cfg_file, Platform};

#[test]
fn relative_paths() {
    assert_eq!(get_relative_cfg_path(Platform::Windows), vec!["AppData", "Local", "Waverunner"]);
    assert_eq!(get_relative_cfg_path(Platform::MacOs), vec!["Library", "Application Support", "Waverunner"]);
}

#[test]
fn cfg_path_under_home() {
    assert_eq!(
        get_cfg_path(Some("/Users/me".to_string()), Platform::MacOs),
        Ok(vec![
            "/Users/me".to_string(),
            "Library".to_string(),
            "Application Support".to_string(),
            "Waverunner".to_string()
        ])
    );
    assert_eq!(get_cfg_path(None, Platform::Windows), Err("Failed to locate home directory."));
}

#[test]
fn fresh_config_is_empty() {
    let c = new_config();
    assert!(c.default_lib.is_none());
    assert!(c.lib_locations.is_empty());
}

#[test]
fn existence_and_overwrite_rules() {
    assert_eq!(check_cfg_exists(Ok(true)), Ok(()));
    assert_eq!(check_cfg_exists(Ok(false)), Err("cfg file does not exist.".to_string()));
    assert_eq!(check_cfg_exists(Err("denied".to_string())), Err("denied".to_string()));
    assert_eq!(safe_new_cfg_file(true), Err("There is already a valid cfg file.".to_string()));
    assert_eq!(safe_new_cfg_file(false), Ok(()));
}
