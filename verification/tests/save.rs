use usagi::save::{save_file_path, save_tmp_path, validate_game_id};
use usagi::settings::{settings_path, settings_tmp_path};

#[test]
fn validate_game_id_rejects_bad_inputs() {
    assert!(validate_game_id("").is_err());
    assert!(validate_game_id("foo/bar").is_err());
    assert!(validate_game_id("..").is_err());
    assert!(validate_game_id("foo\\bar").is_err());
    assert!(validate_game_id("com..foo").is_err());
    assert!(validate_game_id("com.brettmakesgames.snake").is_ok());
    assert!(validate_game_id("brett_snake").is_ok());
    assert!(validate_game_id("Snake-2026").is_ok());
}

#[test]
fn validate_game_id_messages() {
    assert_eq!(validate_game_id("").unwrap_err(), "game_id cannot be empty");
    assert_eq!(
        validate_game_id("a/b").unwrap_err(),
        "game_id 'a/b' contains illegal characters (no '/', '\\', or '..')"
    );
}

#[test]
fn save_and_settings_files_live_in_the_data_dir() {
    assert_eq!(save_file_path("/data/com.x.y"), "/data/com.x.y/save.json");
    assert_eq!(save_tmp_path("/data/com.x.y/"), "/data/com.x.y/save.json.tmp");
    assert_eq!(settings_path("/data/com.x.y"), "/data/com.x.y/settings.json");
    assert_eq!(settings_tmp_path("/data/com.x.y"), "/data/com.x.y/settings.json.tmp");
}
