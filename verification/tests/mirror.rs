use known::action::FsAction;
use known::event::{classify, Effect, EventKind, FileEvent, ModifyKind, ObservedPath, RenameMode};
use known::index::RulesPathIndex;
use known::mirror::{
    cursor_rules_dir, handle_file_event, remove_symlinks_from_directory, rules_dir,
    sync_rules_directory, windsurf_rules_dir, DirEntry,
};
use known::path::FsPath;
use std::collections::BTreeMap;

fn path(text: &str) -> FsPath {
    let mut components: Vec<String> = Vec::new();
    if text.starts_with('/') {
        components.push("/".to_string());
    }
    for part in text.split('/') {
        if !part.is_empty() {
            components.push(part.to_string());
        }
    }
    FsPath::new(components)
}

fn file(name: &str) -> DirEntry {
    DirEntry { name: name.to_string(), is_file: true }
}

fn subdir(name: &str) -> DirEntry {
    DirEntry { name: name.to_string(), is_file: false }
}

fn event(kind: EventKind, at: &FsPath, is_file: bool) -> FileEvent {
    FileEvent { kind, paths: vec![ObservedPath { path: at.clone(), is_file }] }
}

/// The links that exist: the path of each and the path it points to.
struct Links {
    links: BTreeMap<Vec<String>, FsPath>,
    dirs: Vec<FsPath>,
}

impl Links {
    fn new() -> Links {
        Links { links: BTreeMap::new(), dirs: Vec::new() }
    }

    fn run(&mut self, plan: &[FsAction]) {
        for action in plan {
            match action {
                FsAction::CreateDirAll { path } => self.dirs.push(path.clone()),
                FsAction::Link { source, target } => {
                    self.links.insert(target.components.clone(), source.clone());
                }
                FsAction::Remove { target } => {
                    self.links.remove(&target.components);
                }
            }
        }
    }

    fn has(&self, path: &FsPath) -> bool {
        self.links.contains_key(&path.components)
    }

    fn target(&self, path: &FsPath) -> Option<&FsPath> {
        self.links.get(&path.components)
    }

    fn names(&self, dir: &FsPath) -> Vec<String> {
        self.links
            .keys()
            .filter(|key| key.len() == dir.components.len() + 1 && key.starts_with(&dir.components))
            .map(|key| key.last().unwrap().clone())
            .collect()
    }
}

fn index_of(projects: &[&FsPath]) -> RulesPathIndex {
    let mut index = RulesPathIndex::new();
    for project in projects {
        index.insert(rules_dir(project), (*project).clone());
    }
    index
}

#[test]
fn mirror_directories_are_derived_from_the_project() {
    let project = path("/home/user/project");
    assert_eq!(rules_dir(&project), path("/home/user/project/.rules"));
    assert_eq!(cursor_rules_dir(&project), path("/home/user/project/.cursor/rules"));
    assert_eq!(windsurf_rules_dir(&project), path("/home/user/project/.windsurf/rules"));
}

#[test]
fn daemon_test_sync_rules_directory() {
    let dir = path("/tmp/project");
    let rules_path = rules_dir(&dir);
    let cursor_rules_path = cursor_rules_dir(&dir);
    let windsurf_rules_path = windsurf_rules_dir(&dir);
    let entries = vec![file("test1.md"), file("test2.md")];

    let plan = sync_rules_directory(&rules_path, &cursor_rules_path, &windsurf_rules_path, &entries);
    let mut links = Links::new();
    links.run(&plan);

    assert!(links.dirs.contains(&cursor_rules_path));
    assert!(links.dirs.contains(&windsurf_rules_path));

    assert!(links.has(&cursor_rules_path.join("test1.md")));
    assert!(links.has(&cursor_rules_path.join("test2.md")));
    assert!(links.has(&windsurf_rules_path.join("test1.md")));
    assert!(links.has(&windsurf_rules_path.join("test2.md")));
}

#[test]
fn symlinks_test_sync_rules_directory() {
    let rules = path("/p/.rules");
    let cursor = path("/p/.cursor/rules");
    let windsurf = path("/p/.windsurf/rules");
    let plan = sync_rules_directory(&rules, &cursor, &windsurf, &vec![file("test1.md"), file("test2.md")]);
    assert_eq!(
        plan,
        vec![
            FsAction::CreateDirAll { path: cursor.clone() },
            FsAction::CreateDirAll { path: windsurf.clone() },
            FsAction::Link { source: path("/p/.rules/test1.md"), target: path("/p/.cursor/rules/test1.md") },
            FsAction::Link { source: path("/p/.rules/test1.md"), target: path("/p/.windsurf/rules/test1.md") },
            FsAction::Link { source: path("/p/.rules/test2.md"), target: path("/p/.cursor/rules/test2.md") },
            FsAction::Link { source: path("/p/.rules/test2.md"), target: path("/p/.windsurf/rules/test2.md") },
        ]
    );
}

#[test]
fn full_resync_links_each_file_to_its_source() {
    let dir = path("/w/project");
    let rules = rules_dir(&dir);
    let cursor = cursor_rules_dir(&dir);
    let windsurf = windsurf_rules_dir(&dir);
    let mut links = Links::new();
    links.run(&sync_rules_directory(&rules, &cursor, &windsurf, &vec![file("a.md"), file("b.md")]));

    assert_eq!(links.target(&cursor.join("a.md")), Some(&rules.join("a.md")));
    assert_eq!(links.target(&cursor.join("b.md")), Some(&rules.join("b.md")));
    assert_eq!(links.target(&windsurf.join("a.md")), Some(&rules.join("a.md")));
    assert_eq!(links.target(&windsurf.join("b.md")), Some(&rules.join("b.md")));
    assert_eq!(links.names(&cursor), vec!["a.md", "b.md"]);
    assert_eq!(links.names(&windsurf), vec!["a.md", "b.md"]);
}

#[test]
fn full_resync_of_an_empty_directory_only_makes_the_mirrors() {
    let plan = sync_rules_directory(&path("/p/.rules"), &path("/c"), &path("/w"), &Vec::new());
    assert_eq!(
        plan,
        vec![
            FsAction::CreateDirAll { path: path("/c") },
            FsAction::CreateDirAll { path: path("/w") },
        ]
    );
}

#[test]
fn full_resync_twice_changes_nothing() {
    let dir = path("/w/project");
    let rules = rules_dir(&dir);
    let cursor = cursor_rules_dir(&dir);
    let windsurf = windsurf_rules_dir(&dir);
    let entries = vec![file("a.md"), subdir("nested"), file("b.md")];
    let mut links = Links::new();
    links.run(&[FsAction::Link { source: path("/elsewhere"), target: cursor.join("a.md") }]);
    links.run(&sync_rules_directory(&rules, &cursor, &windsurf, &entries));
    let once = links.links.clone();
    let names_once = (links.names(&cursor), links.names(&windsurf));
    links.run(&sync_rules_directory(&rules, &cursor, &windsurf, &entries));
    assert_eq!(links.links, once);
    assert_eq!((links.names(&cursor), links.names(&windsurf)), names_once);
    assert_eq!(links.target(&cursor.join("a.md")), Some(&rules.join("a.md")));
}

#[test]
fn test_sync_rules_directory_with_subdirectories() {
    let dir = path("/tmp/project");
    let rules_path = rules_dir(&dir);
    let cursor_rules_path = cursor_rules_dir(&dir);
    let windsurf_rules_path = windsurf_rules_dir(&dir);
    let entries = vec![file("file1.md"), subdir("subdir")];

    let mut links = Links::new();
    links.run(&sync_rules_directory(&rules_path, &cursor_rules_path, &windsurf_rules_path, &entries));

    assert!(links.has(&cursor_rules_path.join("file1.md")));
    assert!(links.has(&windsurf_rules_path.join("file1.md")));
    assert!(!links.has(&cursor_rules_path.join("subdir")));
    assert!(!links.has(&windsurf_rules_path.join("subdir")));
}

#[test]
fn test_remove_symlinks_from_directory_comprehensive() {
    let dir = path("/tmp/project");
    let rules_path = rules_dir(&dir);
    let cursor_rules_path = cursor_rules_dir(&dir);
    let windsurf_rules_path = windsurf_rules_dir(&dir);
    let entries = vec![file("test1.md"), file("test2.md")];

    let mut links = Links::new();
    links.run(&sync_rules_directory(&rules_path, &cursor_rules_path, &windsurf_rules_path, &entries));
    assert!(links.has(&cursor_rules_path.join("test1.md")));
    assert!(links.has(&windsurf_rules_path.join("test2.md")));

    let plan = remove_symlinks_from_directory(&dir, Some(&entries), Some(&entries));
    links.run(&plan);

    assert!(!links.has(&cursor_rules_path.join("test1.md")));
    assert!(!links.has(&cursor_rules_path.join("test2.md")));
    assert!(!links.has(&windsurf_rules_path.join("test1.md")));
    assert!(!links.has(&windsurf_rules_path.join("test2.md")));

    // Nothing in the plan touches the rules directory.
    for action in &plan {
        match action {
            FsAction::Remove { target } => assert!(!target.starts_with(&rules_path)),
            other => panic!("{:?}", other),
        }
    }
}

#[test]
fn test_remove_symlinks_from_directory_nonexistent_directories() {
    let dir = path("/tmp/project");
    let plan = remove_symlinks_from_directory(&dir, None, None);
    assert!(plan.is_empty());
}

#[test]
fn test_remove_symlinks_from_directory_with_subdirectories() {
    let dir = path("/tmp/project");
    let cursor = vec![file("file1.md"), subdir("subdir")];
    let windsurf = vec![subdir("subdir"), file("file1.md")];

    let plan = remove_symlinks_from_directory(&dir, Some(&cursor), Some(&windsurf));
    assert_eq!(
        plan,
        vec![
            FsAction::Remove { target: path("/tmp/project/.cursor/rules/file1.md") },
            FsAction::Remove { target: path("/tmp/project/.windsurf/rules/file1.md") },
        ]
    );
}

#[test]
fn test_remove_symlinks_when_directory_removed_from_config() {
    let dir = path("/tmp/project");
    let plan = remove_symlinks_from_directory(&dir, Some(&vec![file("only.md")]), None);
    assert_eq!(plan, vec![FsAction::Remove { target: path("/tmp/project/.cursor/rules/only.md") }]);
}

#[test]
fn daemon_test_handle_file_event_with_multiple_directories() {
    let dir1 = path("/tmp/dir1");
    let dir2 = path("/tmp/dir2");
    let index = index_of(&[&dir1, &dir2]);
    let test_file1 = rules_dir(&dir1).join("test1.md");
    let test_file2 = rules_dir(&dir2).join("test2.md");

    let mut links = Links::new();
    links.run(&handle_file_event(&event(EventKind::Create, &test_file1, true), &index));
    links.run(&handle_file_event(&event(EventKind::Create, &test_file2, true), &index));

    assert!(links.has(&cursor_rules_dir(&dir1).join("test1.md")));
    assert!(links.has(&windsurf_rules_dir(&dir1).join("test1.md")));
    assert!(links.has(&cursor_rules_dir(&dir2).join("test2.md")));
    assert!(links.has(&windsurf_rules_dir(&dir2).join("test2.md")));

    assert!(!links.has(&cursor_rules_dir(&dir1).join("test2.md")));
    assert!(!links.has(&cursor_rules_dir(&dir2).join("test1.md")));
}

#[test]
fn file_event_test_handle_file_event_with_multiple_directories() {
    let dir1 = path("/tmp/dir1");
    let dir2 = path("/tmp/dir2");
    let index = index_of(&[&dir1, &dir2]);
    let at = path("/tmp/dir2/.rules/test2.md");
    assert_eq!(
        handle_file_event(&event(EventKind::Create, &at, true), &index),
        vec![
            FsAction::Link { source: at.clone(), target: path("/tmp/dir2/.cursor/rules/test2.md") },
            FsAction::Link { source: at.clone(), target: path("/tmp/dir2/.windsurf/rules/test2.md") },
        ]
    );
}

#[test]
fn test_handle_file_event_rename_operations() {
    let dir = path("/tmp/project");
    let index = index_of(&[&dir]);
    let cursor_rules_path = cursor_rules_dir(&dir);
    let windsurf_rules_path = windsurf_rules_dir(&dir);
    let test_file = rules_dir(&dir).join("test.md");

    let mut links = Links::new();
    links.run(&[
        FsAction::Link { source: test_file.clone(), target: cursor_rules_path.join("test.md") },
        FsAction::Link { source: test_file.clone(), target: windsurf_rules_path.join("test.md") },
    ]);
    assert!(links.has(&cursor_rules_path.join("test.md")));
    assert!(links.has(&windsurf_rules_path.join("test.md")));

    let from = EventKind::Modify(ModifyKind::Name(RenameMode::From));
    links.run(&handle_file_event(&event(from, &test_file, false), &index));

    assert!(!links.has(&cursor_rules_path.join("test.md")));
    assert!(!links.has(&windsurf_rules_path.join("test.md")));

    let new_file = rules_dir(&dir).join("renamed.md");
    let to = EventKind::Modify(ModifyKind::Name(RenameMode::To));
    links.run(&handle_file_event(&event(to, &new_file, true), &index));

    assert!(links.has(&cursor_rules_path.join("renamed.md")));
    assert!(links.has(&windsurf_rules_path.join("renamed.md")));
    assert_eq!(links.names(&cursor_rules_path), vec!["renamed.md"]);
    assert_eq!(links.names(&windsurf_rules_path), vec!["renamed.md"]);
    assert_eq!(links.target(&cursor_rules_path.join("renamed.md")), Some(&new_file));
}

#[test]
fn rename_from_removes_even_when_the_file_is_still_seen() {
    let dir = path("/tmp/project");
    let index = index_of(&[&dir]);
    let from = EventKind::Modify(ModifyKind::Name(RenameMode::From));
    let at = rules_dir(&dir).join("x.md");
    assert_eq!(
        handle_file_event(&event(from, &at, true), &index),
        vec![
            FsAction::Remove { target: cursor_rules_dir(&dir).join("x.md") },
            FsAction::Remove { target: windsurf_rules_dir(&dir).join("x.md") },
        ]
    );
}

#[test]
fn test_handle_file_event_modify_operations() {
    let dir = path("/tmp/project");
    let index = index_of(&[&dir]);
    let test_file = rules_dir(&dir).join("test.md");
    let links_of_file = vec![
        FsAction::Link { source: test_file.clone(), target: cursor_rules_dir(&dir).join("test.md") },
        FsAction::Link { source: test_file.clone(), target: windsurf_rules_dir(&dir).join("test.md") },
    ];
    for kind in [
        EventKind::Modify(ModifyKind::Data),
        EventKind::Modify(ModifyKind::Metadata),
        EventKind::Modify(ModifyKind::Any),
        EventKind::Modify(ModifyKind::Other),
        EventKind::Modify(ModifyKind::Name(RenameMode::Both)),
        EventKind::Modify(ModifyKind::Name(RenameMode::Any)),
        EventKind::Modify(ModifyKind::Name(RenameMode::Other)),
        EventKind::Modify(ModifyKind::Name(RenameMode::To)),
        EventKind::Create,
    ] {
        assert_eq!(handle_file_event(&event(kind, &test_file, true), &index), links_of_file);
        // A path that is no regular file is left alone.
        assert!(handle_file_event(&event(kind, &test_file, false), &index).is_empty());
    }
}

#[test]
fn test_handle_file_event_remove_operations() {
    let dir = path("/tmp/project");
    let index = index_of(&[&dir]);
    let cursor_rules_path = cursor_rules_dir(&dir);
    let windsurf_rules_path = windsurf_rules_dir(&dir);
    let test_file = rules_dir(&dir).join("test.md");

    let mut links = Links::new();
    links.run(&handle_file_event(&event(EventKind::Create, &test_file, true), &index));
    assert!(links.has(&cursor_rules_path.join("test.md")));

    links.run(&handle_file_event(&event(EventKind::Remove, &test_file, false), &index));
    assert!(!links.has(&cursor_rules_path.join("test.md")));
    assert!(!links.has(&windsurf_rules_path.join("test.md")));

    // Removing again, with nothing there, is no error.
    links.run(&handle_file_event(&event(EventKind::Remove, &test_file, false), &index));
    assert!(links.links.is_empty());
}

#[test]
fn test_handle_file_event_ignore_non_watched_directories() {
    let watched_dir = path("/tmp/watched");
    let index = index_of(&[&watched_dir]);
    let unwatched_file = path("/tmp/unwatched/test.md");

    let plan = handle_file_event(&event(EventKind::Create, &unwatched_file, true), &index);
    assert!(plan.is_empty());

    // A directory whose name only starts like the rules directory is not in it.
    let beside = path("/tmp/watched/.rules2/test.md");
    assert!(handle_file_event(&event(EventKind::Create, &beside, true), &index).is_empty());
}

#[test]
fn test_handle_file_event_without_filename() {
    let index = {
        let mut index = RulesPathIndex::new();
        index.insert(path("/"), path("/"));
        index
    };
    let plan = handle_file_event(&event(EventKind::Create, &path("/"), true), &index);
    assert!(plan.is_empty());
    let plan = handle_file_event(&event(EventKind::Remove, &path("/a/.."), false), &index);
    assert!(plan.is_empty());
}

#[test]
fn test_handle_file_event_unsupported_event_types() {
    let dir = path("/tmp/project");
    let index = index_of(&[&dir]);
    let test_file = rules_dir(&dir).join("test.md");

    for kind in [EventKind::Other, EventKind::Access, EventKind::Any] {
        assert!(handle_file_event(&event(kind, &test_file, true), &index).is_empty());
        assert!(handle_file_event(&event(kind, &test_file, false), &index).is_empty());
    }
}

#[test]
fn an_event_with_several_paths_is_handled_path_by_path() {
    let dir = path("/tmp/project");
    let index = index_of(&[&dir]);
    let a = rules_dir(&dir).join("a.md");
    let b = rules_dir(&dir).join("b.md");
    let event = FileEvent {
        kind: EventKind::Create,
        paths: vec![
            ObservedPath { path: a.clone(), is_file: true },
            ObservedPath { path: path("/elsewhere/c.md"), is_file: true },
            ObservedPath { path: b.clone(), is_file: false },
            ObservedPath { path: b.clone(), is_file: true },
        ],
    };
    assert_eq!(
        handle_file_event(&event, &index),
        vec![
            FsAction::Link { source: a.clone(), target: cursor_rules_dir(&dir).join("a.md") },
            FsAction::Link { source: a.clone(), target: windsurf_rules_dir(&dir).join("a.md") },
            FsAction::Link { source: b.clone(), target: cursor_rules_dir(&dir).join("b.md") },
            FsAction::Link { source: b.clone(), target: windsurf_rules_dir(&dir).join("b.md") },
        ]
    );
    assert!(handle_file_event(&FileEvent { kind: EventKind::Create, paths: Vec::new() }, &index).is_empty());
}

#[test]
fn the_first_registered_owner_wins() {
    let mut index = RulesPathIndex::new();
    index.insert(path("/a"), path("/first"));
    index.insert(path("/a/b"), path("/second"));
    let at = path("/a/b/c.md");
    assert_eq!(index.find_owner(&at), Some(0));
    assert_eq!(
        handle_file_event(&event(EventKind::Create, &at, true), &index),
        vec![
            FsAction::Link { source: at.clone(), target: path("/first/.cursor/rules/c.md") },
            FsAction::Link { source: at.clone(), target: path("/first/.windsurf/rules/c.md") },
        ]
    );
}

#[test]
fn classify_follows_the_kind() {
    let from = EventKind::Modify(ModifyKind::Name(RenameMode::From));
    assert_eq!(classify(EventKind::Create, true), Effect::Link);
    assert_eq!(classify(EventKind::Create, false), Effect::Ignore);
    assert_eq!(classify(from, true), Effect::Unlink);
    assert_eq!(classify(from, false), Effect::Unlink);
    assert_eq!(classify(EventKind::Remove, true), Effect::Unlink);
    assert_eq!(classify(EventKind::Remove, false), Effect::Unlink);
    assert_eq!(classify(EventKind::Modify(ModifyKind::Data), true), Effect::Link);
    assert_eq!(classify(EventKind::Modify(ModifyKind::Data), false), Effect::Ignore);
    assert_eq!(classify(EventKind::Access, true), Effect::Ignore);
}

#[test]
fn mirrors_follow_any_sequence_of_changes() {
    let dir = path("/tmp/project");
    let index = index_of(&[&dir]);
    let rules = rules_dir(&dir);
    let cursor = cursor_rules_dir(&dir);
    let windsurf = windsurf_rules_dir(&dir);

    let mut files: Vec<String> = vec!["a.md".to_string(), "b.md".to_string()];
    let mut links = Links::new();
    let listing: Vec<DirEntry> = files.iter().map(|name| file(name)).collect();
    links.run(&sync_rules_directory(&rules, &cursor, &windsurf, &listing));

    let from = EventKind::Modify(ModifyKind::Name(RenameMode::From));
    let to = EventKind::Modify(ModifyKind::Name(RenameMode::To));
    let changes: Vec<(EventKind, &str, bool)> = vec![
        (EventKind::Create, "c.md", true),
        (EventKind::Modify(ModifyKind::Data), "a.md", true),
        (EventKind::Remove, "b.md", false),
        (EventKind::Create, "sub", false),
        (from, "a.md", false),
        (to, "z.md", true),
        (EventKind::Remove, "never.md", false),
        (EventKind::Create, "b.md", true),
        (EventKind::Access, "b.md", true),
        (EventKind::Remove, "sub", false),
        (EventKind::Remove, "c.md", false),
    ];
    for (kind, name, present) in changes {
        files.retain(|known| known != name);
        if present {
            files.push(name.to_string());
        }
        files.sort();
        let is_file = files.iter().any(|known| known == name);
        links.run(&handle_file_event(&event(kind, &rules.join(name), is_file), &index));
        assert_eq!(links.names(&cursor), files, "after {:?} {}", kind, name);
        assert_eq!(links.names(&windsurf), files, "after {:?} {}", kind, name);
    }
    assert_eq!(files, vec!["b.md", "z.md"]);
    assert_eq!(links.target(&cursor.join("z.md")), Some(&rules.join("z.md")));
}

#[test]
fn mirrors_converge_when_notifications_are_handled_late() {
    let dir = path("/tmp/project");
    let index = index_of(&[&dir]);
    let rules = rules_dir(&dir);
    let cursor = cursor_rules_dir(&dir);
    let windsurf = windsurf_rules_dir(&dir);
    let from = EventKind::Modify(ModifyKind::Name(RenameMode::From));
    let to = EventKind::Modify(ModifyKind::Name(RenameMode::To));

    // The changes, each with the files of the rules directory after it.
    let history: Vec<(EventKind, &str, Vec<&str>)> = vec![
        (EventKind::Create, "x.md", vec!["a.md", "x.md"]),
        (EventKind::Remove, "x.md", vec!["a.md"]),
        (EventKind::Remove, "a.md", vec![]),
        (EventKind::Create, "a.md", vec!["a.md"]),
        (EventKind::Modify(ModifyKind::Data), "a.md", vec!["a.md"]),
        (from, "a.md", vec![]),
        (to, "b.md", vec!["b.md"]),
        (EventKind::Create, "c.md", vec!["b.md", "c.md"]),
        (EventKind::Remove, "c.md", vec!["b.md"]),
    ];
    // Every way of being late by a fixed number of changes, up to all of them.
    for lag in 0..history.len() {
        let mut links = Links::new();
        links.run(&sync_rules_directory(&rules, &cursor, &windsurf, &vec![file("a.md")]));
        for (position, (kind, name, _)) in history.iter().enumerate() {
            let seen = (position + lag).min(history.len() - 1);
            let is_file = history[seen].2.contains(name);
            links.run(&handle_file_event(&event(*kind, &rules.join(name), is_file), &index));
        }
        assert_eq!(links.names(&cursor), vec!["b.md"], "lag {}", lag);
        assert_eq!(links.names(&windsurf), vec!["b.md"], "lag {}", lag);
        assert_eq!(links.target(&cursor.join("b.md")), Some(&rules.join("b.md")));
    }
}
