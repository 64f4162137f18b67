use known::error::ErrorKind;
use known::path::FsPath;
use known::project::{
    create_agents_file_based_on_existing_files, create_agents_file_in_dir,
    create_symlinks_in_dir, ensure_rules_directory_exists, move_files_to_rules_dir, names_match,
    scan_directory_for_agent_files, AgentFileStatus, AliasNames, Contents, Notice, ProjectAction,
    ProjectListing, SymlinkError,
};

fn path(text: &str) -> FsPath {
    let mut components: Vec<String> = Vec::new();
    if text.starts_with('/') {
        components.push("/".to_string());
    }
    for part in text.split('/') {
        if !part.is_empty() {
            components.push(part.to_string());
        }
    }
    FsPath::new(components)
}

fn names(list: &[&str]) -> Vec<String> {
    list.iter().map(|name| name.to_string()).collect()
}

fn aliases() -> AliasNames {
    AliasNames { first: "FIRST.md".to_string(), second: "GEMINI.md".to_string() }
}

#[test]
fn names_match_ignores_the_case_of_ascii_letters() {
    assert!(names_match("AGENTS.md", "agents.md"));
    assert!(names_match("Agents.MD", "aGENTS.md"));
    assert!(names_match("", ""));
    assert!(!names_match("AGENTS.md", "AGENTS.mdx"));
    assert!(!names_match("AGENTS.md", "AGENT5.md"));
    assert!(!names_match("É", "é"));
    assert!(!names_match("\u{212a}", "k"));
    assert!(names_match("[", "["));
    assert!(!names_match("[", "{"));
    assert!(!names_match("@", "`"));
}

#[test]
fn agents_test_create_agents_file() {
    let dir = path("/tmp/project");
    let plan = create_agents_file_in_dir(&dir, &names(&["README.md", "src"]), &aliases());
    assert_eq!(
        plan,
        vec![
            ProjectAction::Write { path: path("/tmp/project/AGENTS.md"), contents: Contents::Default },
            ProjectAction::EnsureDir { path: path("/tmp/project/.rules") },
        ]
    );
}

#[test]
fn lib_test_create_agents_file() {
    let dir = path("/tmp/project");
    let plan = create_agents_file_in_dir(&dir, &Vec::new(), &aliases());
    assert_eq!(plan.len(), 2);
    assert_eq!(
        plan[0],
        ProjectAction::Write { path: dir.join("AGENTS.md"), contents: Contents::Default }
    );
}

#[test]
fn agents_test_agents_already_exists() {
    let dir = path("/tmp/project");
    let plan = create_agents_file_in_dir(&dir, &names(&["first.md", "agents.MD", "gemini.md"]), &aliases());
    assert!(plan.is_empty());
}

#[test]
fn lib_test_agents_already_exists() {
    let dir = path("/tmp/project");
    let status = scan_directory_for_agent_files(&dir, &names(&["AGENTS.md"]), &aliases());
    assert_eq!(
        status,
        AgentFileStatus { agents_exists: true, first_alias: None, second_alias: None }
    );
}

#[test]
fn agents_test_rename_gemini_to_agents() {
    let dir = path("/tmp/project");
    let plan = create_agents_file_in_dir(&dir, &names(&["gemini.md", "notes.txt"]), &aliases());
    assert_eq!(
        plan,
        vec![
            ProjectAction::Rename {
                from: path("/tmp/project/gemini.md"),
                to: path("/tmp/project/AGENTS.md"),
            },
            ProjectAction::EnsureDir { path: path("/tmp/project/.rules") },
        ]
    );
}

#[test]
fn lib_test_rename_gemini_to_agents() {
    let dir = path("/tmp/project");
    let plan = create_agents_file_in_dir(&dir, &names(&["GEMINI.md"]), &aliases());
    assert_eq!(
        plan[0],
        ProjectAction::Rename { from: dir.join("GEMINI.md"), to: dir.join("AGENTS.md") }
    );
}

#[test]
fn the_first_other_name_is_renamed_too() {
    let dir = path("/tmp/project");
    let plan = create_agents_file_in_dir(&dir, &names(&["First.MD"]), &aliases());
    assert_eq!(
        plan,
        vec![
            ProjectAction::Rename { from: dir.join("First.MD"), to: dir.join("AGENTS.md") },
            ProjectAction::EnsureDir { path: dir.join(".rules") },
        ]
    );
}

#[test]
fn both_other_names_give_an_empty_file_and_a_notice() {
    let dir = path("/tmp/project");
    let plan = create_agents_file_in_dir(&dir, &names(&["FIRST.md", "GEMINI.md"]), &aliases());
    assert_eq!(
        plan,
        vec![
            ProjectAction::Write { path: dir.join("AGENTS.md"), contents: Contents::Empty },
            ProjectAction::Tell { notice: Notice::BothFound },
            ProjectAction::EnsureDir { path: dir.join(".rules") },
        ]
    );
}

#[test]
fn the_scan_ends_at_the_instruction_file() {
    let dir = path("/d");
    let listing = names(&["gemini.md", "Gemini.MD", "AGENTS.md", "first.md"]);
    let status = scan_directory_for_agent_files(&dir, &listing, &aliases());
    assert_eq!(
        status,
        AgentFileStatus {
            agents_exists: true,
            first_alias: None,
            second_alias: Some(path("/d/Gemini.MD")),
        }
    );
    let status = scan_directory_for_agent_files(&dir, &names(&["first.md", "x"]), &aliases());
    assert_eq!(
        status,
        AgentFileStatus { agents_exists: false, first_alias: Some(path("/d/first.md")), second_alias: None }
    );
}

#[test]
fn test_create_agents_file_in_dir_comprehensive() {
    let dir = path("/tmp/project");
    let status = AgentFileStatus { agents_exists: false, first_alias: None, second_alias: None };
    assert_eq!(
        create_agents_file_based_on_existing_files(&dir, status),
        vec![ProjectAction::Write { path: dir.join("AGENTS.md"), contents: Contents::Default }]
    );
    assert_eq!(
        ensure_rules_directory_exists(&dir),
        ProjectAction::EnsureDir { path: dir.join(".rules") }
    );
}

#[test]
fn lib_test_create_symlinks_no_agents_file() {
    let dir = path("/tmp/project");
    let listing = ProjectListing {
        agents_exists: false,
        rules_names: Vec::new(),
        cursor_names: None,
        windsurf_names: None,
    };
    let result = create_symlinks_in_dir(&dir, listing, &aliases());
    assert!(result.is_err());

    let error = result.unwrap_err();
    assert_eq!(error.kind(), ErrorKind::NotFound);
    assert!(error.message().contains("AGENTS.md file not found"));
}

#[test]
fn symlinks_test_create_symlinks_no_agents_file() {
    let dir = path("/tmp/project");
    let listing = ProjectListing {
        agents_exists: false,
        rules_names: names(&["a.md"]),
        cursor_names: Some(names(&["b.md"])),
        windsurf_names: None,
    };
    let error = create_symlinks_in_dir(&dir, listing, &aliases()).unwrap_err();
    assert_eq!(error, SymlinkError::AgentsFileMissing);
    assert_eq!(
        error.message(),
        "AGENTS.md file not found. Please run 'known init' first."
    );
}

#[test]
fn lib_test_create_symlinks_success() {
    let dir = path("/tmp/project");
    let listing = ProjectListing {
        agents_exists: true,
        rules_names: Vec::new(),
        cursor_names: None,
        windsurf_names: None,
    };
    let plan = create_symlinks_in_dir(&dir, listing, &aliases()).unwrap();
    assert_eq!(
        plan,
        vec![
            ProjectAction::EnsureDir { path: dir.join(".rules") },
            ProjectAction::RemoveIfPresent { path: dir.join("FIRST.md") },
            ProjectAction::RemoveIfPresent { path: dir.join("GEMINI.md") },
            ProjectAction::Symlink { source: "AGENTS.md".to_string(), target: dir.join("FIRST.md") },
            ProjectAction::Symlink { source: "AGENTS.md".to_string(), target: dir.join("GEMINI.md") },
            ProjectAction::Watch { dir: dir.clone() },
        ]
    );
}

#[test]
fn lib_test_move_cursor_rules_to_rules_directory() {
    let dir = path("/tmp/project");
    let listing = ProjectListing {
        agents_exists: true,
        rules_names: Vec::new(),
        cursor_names: Some(names(&["rule1.md", "rule2.txt"])),
        windsurf_names: None,
    };
    let plan = create_symlinks_in_dir(&dir, listing, &aliases()).unwrap();
    assert_eq!(
        plan[1],
        ProjectAction::Rename {
            from: path("/tmp/project/.cursor/rules/rule1.md"),
            to: path("/tmp/project/.rules/rule1.md"),
        }
    );
    assert_eq!(
        plan[2],
        ProjectAction::Rename {
            from: path("/tmp/project/.cursor/rules/rule2.txt"),
            to: path("/tmp/project/.rules/rule2.txt"),
        }
    );
    assert_eq!(plan.len(), 8);
}

#[test]
fn lib_test_move_windsurf_rules_to_rules_directory() {
    let dir = path("/tmp/project");
    let listing = ProjectListing {
        agents_exists: true,
        rules_names: Vec::new(),
        cursor_names: None,
        windsurf_names: Some(names(&["rule1.md"])),
    };
    let plan = create_symlinks_in_dir(&dir, listing, &aliases()).unwrap();
    assert_eq!(
        plan[1],
        ProjectAction::Rename {
            from: path("/tmp/project/.windsurf/rules/rule1.md"),
            to: path("/tmp/project/.rules/rule1.md"),
        }
    );
}

#[test]
fn lib_test_move_rules_skip_existing_files() {
    let dir = path("/tmp/project");
    let listing = ProjectListing {
        agents_exists: true,
        rules_names: names(&["existing.md"]),
        cursor_names: Some(names(&["existing.md", "fresh.md"])),
        windsurf_names: Some(names(&["fresh.md", "other.md"])),
    };
    let plan = create_symlinks_in_dir(&dir, listing, &aliases()).unwrap();
    let middle: Vec<&ProjectAction> = plan[1..6].iter().collect();
    let expected = vec![
            ProjectAction::WarnExists { name: "existing.md".to_string() },
            ProjectAction::Rename {
                from: path("/tmp/project/.cursor/rules/fresh.md"),
                to: path("/tmp/project/.rules/fresh.md"),
            },
            // What the first mirror brought is there when the second is moved.
            ProjectAction::WarnExists { name: "fresh.md".to_string() },
            ProjectAction::Rename {
                from: path("/tmp/project/.windsurf/rules/other.md"),
                to: path("/tmp/project/.rules/other.md"),
            },
            ProjectAction::RemoveIfPresent { path: dir.join("FIRST.md") },
    ];
    assert_eq!(middle, expected.iter().collect::<Vec<&ProjectAction>>());
}

#[test]
fn lib_test_move_rules_no_source_directories() {
    let mut plan = Vec::new();
    let mut present = names(&["a.md"]);
    move_files_to_rules_dir(&mut plan, &path("/p/.cursor/rules"), &path("/p/.rules"), &mut present, None);
    assert!(plan.is_empty());
    assert_eq!(present, names(&["a.md"]));
}

#[test]
fn moving_tells_which_names_arrived() {
    let mut plan = Vec::new();
    let mut present = names(&["a.md"]);
    let moving = names(&["b.md", "a.md", "b.md"]);
    move_files_to_rules_dir(&mut plan, &path("/s"), &path("/t"), &mut present, Some(&moving));
    assert_eq!(present, names(&["a.md", "b.md"]));
    assert_eq!(
        plan,
        vec![
            ProjectAction::Rename { from: path("/s/b.md"), to: path("/t/b.md") },
            ProjectAction::WarnExists { name: "a.md".to_string() },
            ProjectAction::WarnExists { name: "b.md".to_string() },
        ]
    );
}

#[test]
fn agents_test_rename_claude_to_agents() {
    let dir = path("/tmp/project");
    let plan = create_agents_file_in_dir(&dir, &names(&["FIRST.md"]), &aliases());
    assert_eq!(
        plan,
        vec![
            ProjectAction::Rename { from: dir.join("FIRST.md"), to: dir.join("AGENTS.md") },
            ProjectAction::EnsureDir { path: dir.join(".rules") },
        ]
    );
}

#[test]
fn lib_test_rename_claude_to_agents() {
    let dir = path("/tmp/project");
    let status = scan_directory_for_agent_files(&dir, &names(&["first.md"]), &aliases());
    assert_eq!(status.first_alias, Some(dir.join("first.md")));
    assert_eq!(
        create_agents_file_based_on_existing_files(&dir, status),
        vec![ProjectAction::Rename { from: dir.join("first.md"), to: dir.join("AGENTS.md") }]
    );
}

#[test]
fn agents_test_both_claude_and_gemini_exist() {
    let dir = path("/tmp/project");
    let plan = create_agents_file_in_dir(&dir, &names(&["GEMINI.md", "FIRST.md"]), &aliases());
    assert_eq!(
        plan[0],
        ProjectAction::Write { path: dir.join("AGENTS.md"), contents: Contents::Empty }
    );
    // Neither of the two files is renamed or removed.
    for action in &plan {
        assert!(!matches!(action, ProjectAction::Rename { .. }));
        assert!(!matches!(action, ProjectAction::RemoveIfPresent { .. }));
    }
}

#[test]
fn lib_test_both_claude_and_gemini_exist() {
    let dir = path("/tmp/project");
    let status = AgentFileStatus {
        agents_exists: false,
        first_alias: Some(dir.join("FIRST.md")),
        second_alias: Some(dir.join("GEMINI.md")),
    };
    assert_eq!(
        create_agents_file_based_on_existing_files(&dir, status),
        vec![
            ProjectAction::Write { path: dir.join("AGENTS.md"), contents: Contents::Empty },
            ProjectAction::Tell { notice: Notice::BothFound },
        ]
    );
}

#[test]
fn symlinks_test_create_symlinks_success() {
    let dir = path("/tmp/project");
    let listing = ProjectListing {
        agents_exists: true,
        rules_names: Vec::new(),
        cursor_names: None,
        windsurf_names: None,
    };
    let plan = create_symlinks_in_dir(&dir, listing, &aliases()).unwrap();
    assert!(plan.contains(&ProjectAction::Symlink {
        source: "AGENTS.md".to_string(),
        target: path("/tmp/project/FIRST.md"),
    }));
    assert!(plan.contains(&ProjectAction::Symlink {
        source: "AGENTS.md".to_string(),
        target: path("/tmp/project/GEMINI.md"),
    }));
    assert_eq!(plan.last(), Some(&ProjectAction::Watch { dir: dir.clone() }));
}

fn position(plan: &[ProjectAction], action: &ProjectAction) -> usize {
    plan.iter().position(|other| other == action).unwrap()
}

#[test]
fn lib_test_create_symlinks_overwrites_existing() {
    let dir = path("/tmp/project");
    let listing = ProjectListing {
        agents_exists: true,
        rules_names: Vec::new(),
        cursor_names: None,
        windsurf_names: None,
    };
    let plan = create_symlinks_in_dir(&dir, listing, &aliases()).unwrap();
    // What is there under either name goes before the link is made.
    for name in ["FIRST.md", "GEMINI.md"] {
        let removal = ProjectAction::RemoveIfPresent { path: dir.join(name) };
        let link = ProjectAction::Symlink { source: "AGENTS.md".to_string(), target: dir.join(name) };
        assert!(position(&plan, &removal) < position(&plan, &link));
    }
}

#[test]
fn symlinks_test_create_symlinks_overwrites_existing() {
    let dir = path("/srv/repo");
    let others = AliasNames { first: "one.md".to_string(), second: "two.md".to_string() };
    let listing = ProjectListing {
        agents_exists: true,
        rules_names: Vec::new(),
        cursor_names: None,
        windsurf_names: None,
    };
    let plan = create_symlinks_in_dir(&dir, listing, &others).unwrap();
    assert_eq!(
        plan[1..3].iter().collect::<Vec<&ProjectAction>>(),
        vec![
            &ProjectAction::RemoveIfPresent { path: path("/srv/repo/one.md") },
            &ProjectAction::RemoveIfPresent { path: path("/srv/repo/two.md") },
        ]
    );
}

#[test]
fn lib_test_rules_directory_already_exists() {
    let dir = path("/tmp/project");
    let listing = ProjectListing {
        agents_exists: true,
        rules_names: names(&["existing.md"]),
        cursor_names: None,
        windsurf_names: None,
    };
    let plan = create_symlinks_in_dir(&dir, listing, &aliases()).unwrap();
    assert_eq!(plan[0], ProjectAction::EnsureDir { path: dir.join(".rules") });
    // Nothing in the rules directory is moved, removed or written over.
    for action in &plan {
        match action {
            ProjectAction::Rename { from, to } => {
                assert!(!from.starts_with(&dir.join(".rules")));
                assert!(to != &dir.join(".rules").join("existing.md"));
            }
            ProjectAction::RemoveIfPresent { path } => assert!(!path.starts_with(&dir.join(".rules"))),
            ProjectAction::Write { path, .. } => assert!(!path.starts_with(&dir.join(".rules"))),
            _ => {}
        }
    }
}

#[test]
fn symlinks_test_rules_directory_already_exists() {
    let dir = path("/tmp/project");
    assert_eq!(
        ensure_rules_directory_exists(&dir),
        ProjectAction::EnsureDir { path: path("/tmp/project/.rules") }
    );
}

#[test]
fn symlinks_test_move_cursor_rules_to_rules_directory() {
    let mut plan = Vec::new();
    let mut present = Vec::new();
    let moving = names(&["rule1.md", "rule2.txt"]);
    move_files_to_rules_dir(
        &mut plan,
        &path("/p/.cursor/rules"),
        &path("/p/.rules"),
        &mut present,
        Some(&moving),
    );
    assert_eq!(
        plan,
        vec![
            ProjectAction::Rename { from: path("/p/.cursor/rules/rule1.md"), to: path("/p/.rules/rule1.md") },
            ProjectAction::Rename { from: path("/p/.cursor/rules/rule2.txt"), to: path("/p/.rules/rule2.txt") },
        ]
    );
    assert_eq!(present, moving);
}

#[test]
fn symlinks_test_move_windsurf_rules_to_rules_directory() {
    let mut plan = Vec::new();
    let mut present = Vec::new();
    let moving = names(&["rule1.md"]);
    move_files_to_rules_dir(
        &mut plan,
        &path("/p/.windsurf/rules"),
        &path("/p/.rules"),
        &mut present,
        Some(&moving),
    );
    assert_eq!(
        plan,
        vec![ProjectAction::Rename {
            from: path("/p/.windsurf/rules/rule1.md"),
            to: path("/p/.rules/rule1.md"),
        }]
    );
}

#[test]
fn symlinks_test_move_rules_skip_existing_files() {
    let mut plan = Vec::new();
    let mut present = names(&["existing.md"]);
    let moving = names(&["existing.md"]);
    move_files_to_rules_dir(
        &mut plan,
        &path("/p/.cursor/rules"),
        &path("/p/.rules"),
        &mut present,
        Some(&moving),
    );
    assert_eq!(plan, vec![ProjectAction::WarnExists { name: "existing.md".to_string() }]);
    assert_eq!(present, names(&["existing.md"]));
}

#[test]
fn symlinks_test_move_rules_no_source_directories() {
    let dir = path("/tmp/project");
    let listing = ProjectListing {
        agents_exists: true,
        rules_names: Vec::new(),
        cursor_names: None,
        windsurf_names: None,
    };
    let plan = create_symlinks_in_dir(&dir, listing, &aliases()).unwrap();
    for action in &plan {
        assert!(!matches!(action, ProjectAction::Rename { .. }));
        assert!(!matches!(action, ProjectAction::WarnExists { .. }));
    }
}
