use known::constants::{
    AGENTS_FILENAME, APPLICATION, APP_NAME, CONFIG_FILE_NAME, CURSOR_DIR, HOME_CONFIG_DIR,
    MIRROR_RULES_DIR, PID_FILE_NAME, RULES_DIR, WINDSURF_DIR,
};

#[test]
fn test_app_name_constant() {
    assert_eq!(APP_NAME, "known-daemon");
    assert!(!APP_NAME.is_empty());
}

#[test]
fn directory_and_file_names() {
    assert_eq!(RULES_DIR, ".rules");
    assert_eq!(format!("{}/{}", CURSOR_DIR, MIRROR_RULES_DIR), ".cursor/rules");
    assert_eq!(format!("{}/{}", WINDSURF_DIR, MIRROR_RULES_DIR), ".windsurf/rules");
    assert_eq!(PID_FILE_NAME, "known_daemon.pid");
    assert_eq!(CONFIG_FILE_NAME, "config.json");
    assert_eq!(APPLICATION, "known");
    assert_eq!(HOME_CONFIG_DIR, ".config");
    assert_eq!(AGENTS_FILENAME, "AGENTS.md");
}
