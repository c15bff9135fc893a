use whitman::descriptions::{parse_descriptions_file, DescriptionTable};
use whitman::names::{DescriptionError, NameError};
use whitman::path::{FsPath, PathPart};
use whitman::profile::{
    check_new_profile, descriptions_from_file, descriptions_path, filter_profiles, list_profiles,
    old_profile_path, parse_description, parse_profile_file, profile_description_exists,
    profile_file_name, profile_name_from_path, remove_profile_description, repository_agents_dir,
    validate_profile_description, validate_profile_name, whitman_root, write_profile_description,
    add_new_description, lowered_matches, plan_new_profile, starter_profile_text, Ancestor, DirectoryEntry, Profile, ProfileError, DESCRIPTIONS_FILE_NAME,
};

fn path(names: &[&str]) -> FsPath {
    let mut parts = vec![PathPart::RootDir];
    for name in names {
        parts.push(PathPart::Normal(name.to_string()));
    }
    FsPath { parts }
}

fn names_of(profiles: &[Profile]) -> Vec<&str> {
    profiles.iter().map(|profile| profile.name.as_str()).collect()
}

/// The descriptions file after recording each `(name, description)`.
fn descriptions_with(entries: &[(&str, &str)]) -> String {
    let mut text = String::new();
    for (name, description) in entries {
        let table = descriptions_from_file(Some(&text));
        text = write_profile_description(table, name, description).unwrap();
    }
    text
}

fn file(dir: &[&str], name: &str) -> DirectoryEntry {
    let mut names: Vec<&str> = dir.to_vec();
    names.push(name);
    DirectoryEntry { path: path(&names), is_file: true }
}

#[test]
fn infers_profile_metadata_from_file_name_and_description_file() {
    let file_path = path(&["tmp", "AGENTS.work.md"]);
    let text = descriptions_with(&[("work", "Work projects")]);
    let descriptions = descriptions_from_file(Some(&text));

    let profile = parse_profile_file(&file_path, &descriptions).unwrap();

    assert_eq!(profile.name, "work");
    assert_eq!(profile.description, "Work projects");
    assert_eq!(profile.path.parts.len(), file_path.parts.len());
    assert!(matches!(&profile.path.parts[2], PathPart::Normal(n) if n == "AGENTS.work.md"));
}

#[test]
fn lists_profiles_sorted_by_name() {
    let dir = ["tmp"];
    let entries = vec![
        file(&dir, "AGENTS.zeta.md"),
        file(&dir, "AGENTS.alpha.md"),
        file(&dir, "notes.md"),
    ];
    let text = descriptions_with(&[("zeta", "Last"), ("alpha", "First")]);
    let descriptions = descriptions_from_file(Some(&text));

    let profiles = list_profiles(&entries, &descriptions).unwrap();

    assert_eq!(names_of(&profiles), ["alpha", "zeta"]);
}

#[test]
fn lists_profiles_from_repository_agents_dir() {
    let dir = ["repo", ".whitman", "agents"];
    let entries = vec![file(&dir, "AGENTS.repo.md")];
    let text = descriptions_with(&[("repo", "Repository profile")]);
    let descriptions = descriptions_from_file(Some(&text));

    let profiles = list_profiles(&entries, &descriptions).unwrap();

    assert_eq!(names_of(&profiles), ["repo"]);
}

#[test]
fn creates_starter_profile_file() {
    let dir = path(&["tmp"]);
    let files = plan_new_profile(&dir, "work", "Work projects", false, descriptions_from_file(None)).unwrap();
    let descriptions = descriptions_from_file(Some(&files.descriptions_text));
    let profile = parse_profile_file(&files.profile_path, &descriptions).unwrap();

    assert_eq!(profile.name, "work");
    assert_eq!(profile.description, "Work projects");
    assert_eq!(format!("{:?}", profile.path), format!("{:?}", path(&["tmp", "AGENTS.work.md"])));
    assert_eq!(files.profile_text, "# Instructions\n");
    assert_eq!(files.descriptions_text, "work = \"Work projects\"\n");
}

#[test]
fn refuses_to_plan_over_an_existing_profile() {
    let dir = path(&["tmp"]);
    let refused = plan_new_profile(&dir, "work", "Work", true, descriptions_from_file(None));
    assert!(matches!(refused, Err(ProfileError::ProfileExists)));
    let existing = descriptions_from_file(Some("work = \"Old\"\n"));
    let refused = plan_new_profile(&dir, "work", "Work", false, existing);
    assert!(matches!(refused, Err(ProfileError::DescriptionExists(_))));
    let refused = plan_new_profile(&dir, "bad.name", "Work", false, descriptions_from_file(None));
    assert!(matches!(refused, Err(ProfileError::Name(NameError::InvalidCharacters))));
    assert_eq!(starter_profile_text(), "# Instructions\n");
}

#[test]
fn repository_agents_dir_uses_nearest_git_ancestor() {
    let nested = path(&["repo", "packages", "app"]);
    let ancestors = vec![
        Ancestor { path: path(&["repo", "packages", "app"]), has_whitman_dir: false, has_git_dir: false },
        Ancestor { path: path(&["repo", "packages"]), has_whitman_dir: false, has_git_dir: false },
        Ancestor { path: path(&["repo"]), has_whitman_dir: false, has_git_dir: true },
        Ancestor { path: path(&[]), has_whitman_dir: false, has_git_dir: false },
    ];

    let agents = repository_agents_dir(&nested, &ancestors);
    let expected = path(&["repo", ".whitman", "agents"]);
    assert_eq!(format!("{:?}", agents), format!("{:?}", expected));
}

#[test]
fn repository_agents_dir_prefers_whitman_over_git() {
    let work = path(&["a", "b"]);
    let ancestors = vec![
        Ancestor { path: path(&["a", "b"]), has_whitman_dir: false, has_git_dir: true },
        Ancestor { path: path(&["a"]), has_whitman_dir: true, has_git_dir: false },
    ];
    let root = whitman_root(&ancestors).unwrap();
    assert_eq!(format!("{:?}", root), format!("{:?}", path(&["a"])));

    let none = vec![Ancestor { path: path(&["a", "b"]), has_whitman_dir: false, has_git_dir: false }];
    assert!(whitman_root(&none).is_none());
    let agents = repository_agents_dir(&work, &none);
    assert_eq!(format!("{:?}", agents), format!("{:?}", path(&["a", "b", ".whitman", "agents"])));
}

#[test]
fn rejects_invalid_profile_names() {
    let descriptions = descriptions_from_file(None);
    let long_name = "abcdefghijklmnx";
    let long_path = path(&["tmp", &format!("AGENTS.{long_name}.md")]);
    let error = parse_profile_file(&long_path, &descriptions).unwrap_err().message();
    assert!(error.contains("under 15 characters"));

    let bad_path = path(&["tmp", "AGENTS.bad.name.md"]);
    let error = parse_profile_file(&bad_path, &descriptions).unwrap_err().message();
    assert!(error.contains("ASCII letters"));
}

#[test]
fn rejects_missing_empty_and_long_descriptions() {
    let empty = parse_description("").unwrap_err().message();
    assert!(empty.contains("cannot be empty"));

    let multi_line = parse_description("one\ntwo").unwrap_err().message();
    assert!(multi_line.contains("single line"));

    let long = "a".repeat(100);
    let error = parse_description(&long).unwrap_err().message();
    assert!(error.contains("under 100 characters"));
}

#[test]
fn filters_profiles_by_name_or_description_case_insensitively() {
    let dir = ["tmp"];
    let entries = vec![file(&dir, "AGENTS.work.md"), file(&dir, "AGENTS.home.md")];
    let text = descriptions_with(&[("work", "Client projects"), ("home", "Personal tasks")]);
    let descriptions = descriptions_from_file(Some(&text));
    let profiles = list_profiles(&entries, &descriptions).unwrap();

    let by_name = filter_profiles(&profiles, "HOME");
    assert_eq!(by_name[0].name, "home");

    let by_description = filter_profiles(&profiles, "client");
    assert_eq!(by_description[0].name, "work");

    let all = filter_profiles(&profiles, " ");
    assert_eq!(all.len(), 2);
}

#[test]
fn formats_profile_file_names() -> Result<(), NameError> {
    assert_eq!(profile_file_name("client_1")?, "AGENTS.client_1.md");
    assert_eq!(DESCRIPTIONS_FILE_NAME, "descriptions.toml");
    assert!(profile_file_name("bad.name").is_err());
    Ok(())
}

#[test]
fn validates_names_by_each_rule() {
    assert_eq!(validate_profile_name(""), Err(NameError::Empty));
    assert_eq!(validate_profile_name("abcdefghijklmno"), Err(NameError::TooLong));
    assert_eq!(validate_profile_name("abcdefghijklmn"), Ok(()));
    assert_eq!(validate_profile_name("a b"), Err(NameError::InvalidCharacters));
    assert_eq!(validate_profile_name("Zed-9_x"), Ok(()));
    assert_eq!(validate_profile_name("café"), Err(NameError::InvalidCharacters));
}

#[test]
fn trims_descriptions_and_counts_characters() {
    assert_eq!(parse_description("  Work projects \t").unwrap(), "Work projects");
    assert_eq!(parse_description("\u{3000}wide\u{a0}").unwrap(), "wide");
    assert_eq!(parse_description("one\r\n").unwrap(), "one");
    assert_eq!(parse_description(" \n ").unwrap_err(), DescriptionError::Empty);
    assert_eq!(parse_description("a\r\nb").unwrap_err(), DescriptionError::MultipleLines);
    let ninety_nine = "é".repeat(99);
    assert_eq!(parse_description(&ninety_nine).unwrap(), ninety_nine);
    assert_eq!(validate_profile_description("x".repeat(100).as_str()).unwrap_err(), DescriptionError::TooLong);
}

#[test]
fn reads_profile_names_from_paths() {
    assert_eq!(profile_name_from_path(&path(&["d", "AGENTS.work.md"])).unwrap(), "work");
    assert_eq!(profile_name_from_path(&path(&["d", "AGENTS..md"])).unwrap(), "");
    assert!(matches!(profile_name_from_path(&path(&[])), Err(ProfileError::NoFileName)));
    match profile_name_from_path(&path(&["d", "notes.md"])) {
        Err(e) => assert_eq!(e.message(), "profile file name must match AGENTS.<name>.md: notes.md"),
        Ok(_) => panic!("accepted notes.md"),
    }
}

#[test]
fn derives_paths_in_the_profile_directory() {
    let dir = path(&["repo", ".whitman", "agents"]);
    assert_eq!(
        format!("{:?}", old_profile_path(&dir)),
        format!("{:?}", path(&["repo", ".whitman", "agents", "AGENTS.old.md"]))
    );
    assert_eq!(
        format!("{:?}", descriptions_path(&dir)),
        format!("{:?}", path(&["repo", ".whitman", "agents", "descriptions.toml"]))
    );
}

#[test]
fn reports_missing_descriptions_and_unreadable_files() {
    let descriptions = descriptions_from_file(Some("other = \"Other\"\n"));
    let error = parse_profile_file(&path(&["d", "AGENTS.work.md"]), &descriptions).unwrap_err();
    assert_eq!(error.message(), "missing profile description for 'work' in descriptions.toml");

    let failed: Result<DescriptionTable, ProfileError> = Err(ProfileError::Io("failed to read descriptions.toml".to_string()));
    let error = parse_profile_file(&path(&["d", "AGENTS.work.md"]), &failed).unwrap_err();
    assert_eq!(error.message(), "failed to read descriptions.toml");

    let broken = descriptions_from_file(Some("work\n"));
    let error = parse_profile_file(&path(&["d", "AGENTS.work.md"]), &broken).unwrap_err();
    assert_eq!(
        error.message(),
        "invalid descriptions.toml: line 1 must be formatted as name = \"description\""
    );
}

#[test]
fn writes_removes_and_finds_descriptions() {
    let text = descriptions_with(&[("zeta", "Last \"one\""), ("alpha", "back\\slash")]);
    assert_eq!(text, "alpha = \"back\\\\slash\"\nzeta = \"Last \\\"one\\\"\"\n");

    let table = descriptions_from_file(Some(&text));
    assert_eq!(profile_description_exists(&table, "zeta").unwrap(), true);
    assert_eq!(profile_description_exists(&table, "beta").unwrap(), false);
    assert!(matches!(profile_description_exists(&table, "no pe"), Err(ProfileError::Name(NameError::InvalidCharacters))));

    let removed = remove_profile_description(table, "zeta").unwrap();
    assert_eq!(removed, "alpha = \"back\\\\slash\"\n");

    let again = write_profile_description(descriptions_from_file(Some(&removed)), "alpha", "  New  ").unwrap();
    assert_eq!(again, "alpha = \"New\"\n");

    let refused = write_profile_description(descriptions_from_file(None), "alpha", "");
    assert!(matches!(refused, Err(ProfileError::Description(DescriptionError::Empty))));
}

#[test]
fn descriptions_written_are_read_back() {
    let text = descriptions_with(&[("b", "Tab\there"), ("a", "Quote \" and \\ mark"), ("c", "Plain")]);
    let table = parse_descriptions_file(&text).unwrap();
    assert_eq!(table.len(), 3);
    assert_eq!(table.render(), text);
    let profile = parse_profile_file(&path(&["d", "AGENTS.a.md"]), &Ok(table)).unwrap();
    assert_eq!(profile.description, "Quote \" and \\ mark");
}

#[test]
fn adding_an_existing_description_is_refused() {
    let text = descriptions_with(&[("work", "Work")]);
    let refused = add_new_description(descriptions_from_file(Some(&text)), "work", "Other");
    match refused {
        Err(e) => assert_eq!(e.message(), "profile description already exists for work"),
        Ok(_) => panic!("accepted a second description"),
    }
    let error = check_new_profile(&path(&["d"]), "bad name", "x").unwrap_err();
    assert!(matches!(error, ProfileError::Name(NameError::InvalidCharacters)));
    let error = check_new_profile(&path(&["d"]), "ok", " ").unwrap_err();
    assert!(matches!(error, ProfileError::Description(DescriptionError::Empty)));
}

#[test]
fn matches_a_lowered_query_in_name_or_description() {
    assert!(lowered_matches("work", "client projects", "client"));
    assert!(lowered_matches("work", "client projects", "wor"));
    assert!(lowered_matches("work", "client projects", ""));
    assert!(!lowered_matches("work", "client projects", "home"));
    assert!(!lowered_matches("work", "client projects", "Client"));
    assert!(!lowered_matches("wo", "", "work"));
}

#[test]
fn agents_md_is_no_profile_file() {
    match profile_name_from_path(&path(&["d", "AGENTS.md"])) {
        Err(e) => assert_eq!(e.message(), "profile file name must match AGENTS.<name>.md: AGENTS.md"),
        Ok(_) => panic!("accepted AGENTS.md"),
    }
    let descriptions = descriptions_from_file(Some(&descriptions_with(&[("work", "Work")])));
    assert!(matches!(
        parse_profile_file(&path(&["d", "AGENTS.md"]), &descriptions),
        Err(ProfileError::FileNamePattern(_))
    ));
    let entries = vec![file(&["d"], "AGENTS.md"), file(&["d"], "AGENTS.work.md")];
    let profiles = list_profiles(&entries, &descriptions).unwrap();
    assert_eq!(names_of(&profiles), ["work"]);
}
