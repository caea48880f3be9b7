use railbreaker::state::{
    get_config_file_path, get_database_file_path, global_state, GlobalState,
};

#[test]
fn a_run_starts_with_nothing_known() {
    let state = global_state();
    assert!(state.tracks.is_empty());
    assert_eq!(state.current_directory, "");
    assert_eq!(state.downloads_directory, "");
    assert_eq!(state.racecards_directory, "");
    let default = GlobalState::default();
    assert!(default.tracks.is_empty());
    assert_eq!(default.current_directory, "");
}

#[test]
fn no_path_before_the_directory_is_known() {
    let state = global_state();
    assert_eq!(get_config_file_path(&state), Err("Current directory not initialized".to_string()));
    assert_eq!(
        get_database_file_path(&state),
        Err("Current directory not initialized".to_string())
    );
}

#[test]
fn paths_below_the_current_directory() {
    let mut state = global_state();
    state.current_directory = "/home/rail".to_string();
    assert_eq!(get_config_file_path(&state), Ok("/home/rail/config.json".to_string()));
    assert_eq!(
        get_database_file_path(&state),
        Ok("/home/rail/Racecards/railbreaker.db".to_string())
    );
    state.current_directory = "C:\\r\u{e9}sum\u{e9}".to_string();
    assert_eq!(get_config_file_path(&state), Ok("C:\\r\u{e9}sum\u{e9}/config.json".to_string()));
}
