use known::config::{
    add_directory_to_config_file, config_text, get_config_file_path, newline_terminated,
    remove_directory_from_config_file, temp_path, Config, ConfigPathError,
};
use known::error::ErrorKind;
use known::path::FsPath;

fn path(text: &str) -> FsPath {
    let mut components: Vec<String> = Vec::new();
    if text.starts_with('/') {
        components.push("/".to_string());
    }
    for part in text.split('/') {
        if !part.is_empty() {
            components.push(part.to_string());
        }
    }
    FsPath::new(components)
}

fn shown(path: &FsPath) -> String {
    path.components.join("/")
}

#[test]
fn config_test_config_new() {
    let config = Config::new();
    assert_eq!(config.directory_count(), 0);
    assert!(config.get_watched_directories().is_empty());
}

#[test]
fn mod_test_config_new() {
    let config = Config::new();
    assert_eq!(config.directory_count(), 0);
    assert!(config.get_watched_directories().is_empty());
}

#[test]
fn config_test_config_add_directory() {
    let mut config = Config::new();
    let dir = path("/tmp/project");

    let added = config.add_directory(dir.clone());
    assert!(added);
    assert_eq!(config.directory_count(), 1);
    assert!(config.contains_directory(&dir));

    let added_again = config.add_directory(dir.clone());
    assert!(!added_again);
    assert_eq!(config.directory_count(), 1);
}

#[test]
fn mod_test_config_add_directory() {
    let mut config = Config::new();
    let dir = path("/tmp/other/project");

    assert!(config.add_directory(dir.clone()));
    assert_eq!(config.directory_count(), 1);
    assert!(config.contains_directory(&dir));

    assert!(!config.add_directory(dir.clone()));
    assert_eq!(config.directory_count(), 1);
    assert_eq!(config.get_watched_directories(), &vec![dir]);
}

#[test]
fn config_test_config_remove_directory() {
    let mut config = Config::new();
    let dir = path("/tmp/project");

    config.add_directory(dir.clone());
    assert_eq!(config.directory_count(), 1);

    let removed = config.remove_directory(&dir);
    assert!(removed);
    assert_eq!(config.directory_count(), 0);
    assert!(!config.contains_directory(&dir));

    let removed_again = config.remove_directory(&dir);
    assert!(!removed_again);
}

#[test]
fn mod_test_config_remove_directory() {
    let mut config = Config::new();
    let first = path("/work/a");
    let second = path("/work/b");
    let third = path("/work/c");
    config.add_directory(first.clone());
    config.add_directory(second.clone());
    config.add_directory(third.clone());

    assert!(config.remove_directory(&second));
    assert_eq!(config.directory_count(), 2);
    assert!(!config.contains_directory(&second));
    assert_eq!(config.get_watched_directories(), &vec![first, third]);
    assert!(!config.remove_directory(&second));
}

#[test]
fn config_test_config_contains_directory() {
    let mut config = Config::new();
    let dir1 = path("/tmp/one");
    let dir2 = path("/tmp/two");

    config.add_directory(dir1.clone());

    assert!(config.contains_directory(&dir1));
    assert!(!config.contains_directory(&dir2));
}

#[test]
fn mod_test_config_contains_directory() {
    let mut config = Config::new();
    let dir1 = path("/tmp/one");
    let prefix = path("/tmp");
    let longer = path("/tmp/one/two");

    config.add_directory(dir1.clone());

    assert!(config.contains_directory(&dir1));
    assert!(!config.contains_directory(&prefix));
    assert!(!config.contains_directory(&longer));
}

#[test]
fn config_test_config_with_multiple_directories() {
    let mut config = Config::new();
    let dirs: Vec<FsPath> = (0..5).map(|i| path(&format!("/tmp/dir{}", i))).collect();

    for dir in &dirs {
        config.add_directory(dir.clone());
    }

    assert_eq!(config.directory_count(), 5);

    for dir in &dirs {
        assert!(config.contains_directory(dir));
    }

    config.remove_directory(&dirs[0]);
    config.remove_directory(&dirs[2]);

    assert_eq!(config.directory_count(), 3);
    assert!(!config.contains_directory(&dirs[0]));
    assert!(config.contains_directory(&dirs[1]));
    assert!(!config.contains_directory(&dirs[2]));
    assert!(config.contains_directory(&dirs[3]));
    assert!(config.contains_directory(&dirs[4]));
}

#[test]
fn mod_test_config_with_multiple_directories() {
    let mut config = Config::new();
    let dirs: Vec<FsPath> = (0..5).map(|i| path(&format!("/srv/project{}", i))).collect();
    for dir in &dirs {
        assert!(config.add_directory(dir.clone()));
    }
    for dir in &dirs {
        assert!(!config.add_directory(dir.clone()));
    }
    assert_eq!(config.directory_count(), 5);
    assert_eq!(config.get_watched_directories(), &dirs);
}

#[test]
fn config_test_remove_directory_nonexistent() {
    let mut config = Config::new();
    let nonexistent_path = path("/tmp/some/nonexistent");

    let removed = config.remove_directory(&nonexistent_path);
    assert!(!removed, "Should return false when directory not in list");
    assert_eq!(config.directory_count(), 0);
}

#[test]
fn mod_test_remove_directory_nonexistent() {
    let mut config = Config::new();
    config.add_directory(path("/tmp/there"));
    let removed = config.remove_directory(&path("/tmp/not_there"));
    assert!(!removed, "Should return false when directory not in list");
    assert_eq!(config.directory_count(), 1);
}

#[test]
fn config_test_contains_directory_nonexistent() {
    let config = Config::new();
    let nonexistent_path = path("/tmp/some/nonexistent");

    let contains = config.contains_directory(&nonexistent_path);
    assert!(!contains, "Should return false for nonexistent directory");
}

#[test]
fn mod_test_contains_directory_nonexistent() {
    let mut config = Config::new();
    config.add_directory(path("/tmp/there"));
    assert!(!config.contains_directory(&path("/tmp/nonexistent")));
}

#[test]
fn config_test_get_config_file_path() {
    let platform = path("/home/user/.config/known");
    let home = path("/home/user");
    let config_path = get_config_file_path(Some(&platform), Some(&home)).unwrap();

    assert!(shown(&config_path).contains("known"));
    assert!(shown(&config_path).contains("config.json"));
    assert_eq!(config_path, path("/home/user/.config/known/config.json"));
}

#[test]
fn mod_test_get_config_file_path() {
    let platform = path("/Users/someone/Library/Application Support/known");
    let config_path = get_config_file_path(Some(&platform), None).unwrap();

    assert!(shown(&config_path).contains("known"));
    assert!(shown(&config_path).contains("config.json"));
    assert_eq!(
        config_path,
        path("/Users/someone/Library/Application Support/known/config.json")
    );
}

#[test]
fn config_test_get_config_file_path_fallback() {
    let custom_home = path("/tmp/custom_home");
    let config_path = get_config_file_path(None, Some(&custom_home)).unwrap();

    assert!(shown(&config_path).contains("known"));
    assert!(shown(&config_path).contains("config.json"));

    let expected_fallback_path = custom_home.join(".config").join("known").join("config.json");
    assert_eq!(config_path, expected_fallback_path);
}

#[test]
fn mod_test_get_config_file_path_fallback() {
    let error = get_config_file_path(None, None).unwrap_err();
    assert_eq!(error, ConfigPathError::HomeUnknown);
    assert_eq!(error.kind(), ErrorKind::NotFound);
    assert_eq!(
        error.message(),
        "Unable to determine home directory for configuration path"
    );
}

#[test]
fn test_add_and_remove_directory_from_config_file() {
    let config_path = path("/tmp/cfg/test_config.json");
    let dir_to_add = path("/tmp/project");
    let mut config = Config::new();

    let added = add_directory_to_config_file(&mut config, dir_to_add.clone(), &config_path);
    assert_eq!(added, Some(path("/tmp/cfg/test_config.json.tmp")));

    assert_eq!(config.directory_count(), 1);
    assert!(config.contains_directory(&dir_to_add));

    let removed = remove_directory_from_config_file(&mut config, &dir_to_add, &config_path);
    assert_eq!(removed, Some(path("/tmp/cfg/test_config.json.tmp")));

    assert_eq!(config.directory_count(), 0);
}

#[test]
fn test_add_command_acceptance() {
    let project_path = path("/tmp/project");
    let config_path = path("/tmp/config/test_config.json");

    let mut config = Config::new();
    assert!(!config.contains_directory(&project_path));

    let added = add_directory_to_config_file(&mut config, project_path.clone(), &config_path);
    assert!(added.is_some());

    assert!(config.contains_directory(&project_path));

    let added_again = add_directory_to_config_file(&mut config, project_path.clone(), &config_path);
    assert!(added_again.is_none());
}

#[test]
fn test_list_command_acceptance() {
    let project_path1 = path("/tmp/first_project");
    let project_path2 = path("/tmp/second_project");
    let config_path = path("/tmp/config/test_config.json");

    let mut config = Config::new();
    assert_eq!(config.directory_count(), 0);
    assert!(config.get_watched_directories().is_empty());

    let added1 = add_directory_to_config_file(&mut config, project_path1.clone(), &config_path);
    assert!(added1.is_some());
    let added2 = add_directory_to_config_file(&mut config, project_path2.clone(), &config_path);
    assert!(added2.is_some());

    assert_eq!(config.directory_count(), 2);
    assert!(config.contains_directory(&project_path1));
    assert!(config.contains_directory(&project_path2));

    let watched_dirs = config.get_watched_directories();
    assert_eq!(watched_dirs.len(), 2);
    assert!(watched_dirs
        .iter()
        .any(|d| d.file_name() == project_path1.file_name()));
    assert!(watched_dirs
        .iter()
        .any(|d| d.file_name() == project_path2.file_name()));
}

#[test]
fn test_remove_command_acceptance() {
    let project_path = path("/tmp/project");
    let config_path = path("/tmp/config/test_config.json");
    let mut config = Config::new();

    let added = add_directory_to_config_file(&mut config, project_path.clone(), &config_path);
    assert!(added.is_some(), "Directory should be added to config");
    assert!(
        config.contains_directory(&project_path),
        "Directory should be in config"
    );

    let removed = remove_directory_from_config_file(&mut config, &project_path, &config_path);
    assert!(removed.is_some(), "Directory should be removed from config");
    assert!(
        !config.contains_directory(&project_path),
        "Directory should not be in config after removal"
    );

    let not_removed = remove_directory_from_config_file(&mut config, &project_path, &config_path);
    assert!(
        not_removed.is_none(),
        "Removing directory not in config should return false"
    );
}

#[test]
fn difference_lists_what_the_other_lacks_in_order() {
    let mut old = Config::new();
    old.add_directory(path("/p/a"));
    old.add_directory(path("/p/b"));
    old.add_directory(path("/p/c"));
    let mut new = Config::new();
    new.add_directory(path("/p/d"));
    new.add_directory(path("/p/b"));
    new.add_directory(path("/p/e"));

    assert_eq!(new.difference(&old), vec![path("/p/d"), path("/p/e")]);
    assert_eq!(old.difference(&new), vec![path("/p/a"), path("/p/c")]);
    assert!(old.difference(&old).is_empty());
}

#[test]
fn clone_keeps_the_directories() {
    let mut config = Config::new();
    config.add_directory(path("/p/a"));
    config.add_directory(path("/p/b"));
    let copy = config.clone();
    assert_eq!(copy.get_watched_directories(), config.get_watched_directories());
    config.remove_directory(&path("/p/a"));
    assert_eq!(copy.directory_count(), 2);
}

#[test]
fn config_text_is_the_trimmed_content_or_nothing() {
    assert_eq!(config_text(""), None);
    assert_eq!(config_text("  \n\t "), None);
    assert_eq!(config_text("{}\n"), Some("{}"));
    assert_eq!(
        config_text("\n {\"watched_directories\": []} \n\n"),
        Some("{\"watched_directories\": []}")
    );
    assert_eq!(config_text("\u{a0}x\u{3000}"), Some("x"));
}

#[test]
fn newline_terminated_adds_one_line_feed_at_most() {
    assert_eq!(newline_terminated("{}".to_string()), "{}\n");
    assert_eq!(newline_terminated("{}\n".to_string()), "{}\n");
    assert_eq!(newline_terminated(String::new()), "\n");
    assert_eq!(newline_terminated("a\n\n".to_string()), "a\n\n");
}

#[test]
fn temp_path_replaces_the_extension() {
    assert_eq!(temp_path(&path("/c/config.json")), path("/c/config.json.tmp"));
    assert_eq!(temp_path(&path("/c/config")), path("/c/config.json.tmp"));
    assert_eq!(temp_path(&path("/c/a.b.c")), path("/c/a.b.json.tmp"));
    assert_eq!(temp_path(&path("/c/.hidden")), path("/c/.hidden.json.tmp"));
    assert_eq!(temp_path(&path("/")), path("/"));
}

#[test]
fn config_test_load_config_nonexistent_file() {
    // Without a file there is nothing to parse, and the configuration is the empty one.
    assert_eq!(config_text(""), None);
    let loaded_config = Config::default();

    assert_eq!(loaded_config.directory_count(), 0);
    assert!(loaded_config.get_watched_directories().is_empty());
}

#[test]
fn mod_test_load_config_nonexistent_file() {
    let empty_config = Config::default();
    assert_eq!(empty_config.directory_count(), 0);
    assert!(empty_config.get_watched_directories().is_empty());
    assert!(!empty_config.contains_directory(&path("/tmp")));
}
