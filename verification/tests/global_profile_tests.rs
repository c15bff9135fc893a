use whitman::global_profile::{
    default_profiles_dir, filter_profiles, list_profiles, old_profile_path, parse_description,
    parse_profile_file, profile_file_name, profile_name_from_path, ProfileFileEntry, Profile,
};
use whitman::names::{DescriptionError, NameError};
use whitman::path::{FsPath, PathPart};

fn path(names: &[&str]) -> FsPath {
    let mut parts = vec![PathPart::RootDir];
    for name in names {
        parts.push(PathPart::Normal(name.to_string()));
    }
    FsPath { parts }
}

fn profile_file(name: &str, contents: &str) -> ProfileFileEntry {
    ProfileFileEntry { path: path(&["home", name]), is_file: true, contents: Some(Ok(contents.to_string())) }
}

fn names_of(profiles: &[Profile]) -> Vec<&str> {
    profiles.iter().map(|profile| profile.name.as_str()).collect()
}

#[test]
fn infers_profile_metadata_from_file_name_and_first_line() {
    let file_path = path(&["home", "agents.work.md"]);
    let contents = Ok("<!-- whitman: Work projects -->\ncontent\n".to_string());

    let profile = parse_profile_file(&file_path, &contents).unwrap();

    assert_eq!(profile.name, "work");
    assert_eq!(profile.description, "Work projects");
    assert_eq!(format!("{:?}", profile.path), format!("{:?}", file_path));
}

#[test]
fn profile_tests_lists_profiles_sorted_by_name() {
    let entries = vec![
        profile_file("agents.zeta.md", "<!-- whitman: Last -->\n"),
        profile_file("agents.alpha.md", "<!-- whitman: First -->\n"),
        ProfileFileEntry { path: path(&["home", "notes.md"]), is_file: true, contents: None },
    ];

    let profiles = list_profiles(&entries).unwrap();

    assert_eq!(names_of(&profiles), ["alpha", "zeta"]);
}

#[test]
fn profile_tests_rejects_invalid_profile_names() {
    let long_name = "abcdefghijklmnx";
    let contents = Ok("<!-- whitman: Too long -->\n".to_string());
    let error = parse_profile_file(&path(&["home", &format!("agents.{long_name}.md")]), &contents)
        .unwrap_err()
        .message();
    assert!(error.contains("under 15 characters"));

    let contents = Ok("<!-- whitman: Bad chars -->\n".to_string());
    let error = parse_profile_file(&path(&["home", "agents.bad.name.md"]), &contents).unwrap_err().message();
    assert!(error.contains("ASCII letters"));
}

#[test]
fn profile_tests_rejects_missing_empty_and_long_descriptions() {
    let missing = parse_description("not a whitman comment").unwrap_err().message();
    assert!(missing.contains("first line"));

    let empty = parse_description("<!-- whitman: -->").unwrap_err().message();
    assert!(empty.contains("cannot be empty"));

    let long = format!("<!-- whitman: {} -->", "a".repeat(100));
    let error = parse_description(&long).unwrap_err().message();
    assert!(error.contains("under 100 characters"));
}

#[test]
fn profile_tests_filters_profiles_by_name_or_description_case_insensitively() {
    let entries = vec![
        profile_file("agents.work.md", "<!-- whitman: Client projects -->\n"),
        profile_file("agents.home.md", "<!-- whitman: Personal tasks -->\n"),
    ];
    let profiles = list_profiles(&entries).unwrap();

    let by_name = filter_profiles(&profiles, "HOME");
    assert_eq!(by_name[0].name, "home");

    let by_description = filter_profiles(&profiles, "client");
    assert_eq!(by_description[0].name, "work");

    let all = filter_profiles(&profiles, " ");
    assert_eq!(all.len(), 2);
}

#[test]
fn profile_tests_formats_profile_file_names() -> Result<(), NameError> {
    assert_eq!(profile_file_name("client_1")?, "agents.client_1.md");
    assert!(profile_file_name("bad.name").is_err());
    Ok(())
}

#[test]
fn reads_comment_descriptions() {
    assert_eq!(parse_description("  <!-- whitman:   Spaced out   -->  ").unwrap(), "Spaced out");
    assert_eq!(parse_description("<!-- whitman:x-->").unwrap(), "x");
    assert_eq!(parse_description("<!-- whitman:-->").unwrap_err(), DescriptionError::Empty);
    assert_eq!(parse_description("<!-- whitman: x ->").unwrap_err(), DescriptionError::NotAComment);
    let ninety_nine = format!("<!-- whitman: {} -->", "b".repeat(99));
    assert_eq!(parse_description(&ninety_nine).unwrap(), "b".repeat(99));
}

#[test]
fn reports_empty_and_unreadable_profiles() {
    let file_path = path(&["home", "agents.work.md"]);
    let error = parse_profile_file(&file_path, &Ok(String::new())).unwrap_err();
    assert_eq!(error.message(), "profile is empty");
    let error = parse_profile_file(&file_path, &Err("failed to read agents.work.md".to_string())).unwrap_err();
    assert_eq!(error.message(), "failed to read agents.work.md");
    let error = parse_profile_file(&file_path, &Ok("# Title\n".to_string())).unwrap_err();
    assert_eq!(
        error.message(),
        "invalid profile description: first line must be formatted as <!-- whitman: description -->"
    );
    let error = parse_profile_file(&path(&["home", "AGENTS.work.md"]), &Ok(String::new())).unwrap_err();
    assert_eq!(error.message(), "profile file name must match agents.<name>.md: AGENTS.work.md");
}

#[test]
fn locates_the_global_profile_directory() {
    let dir = default_profiles_dir(Some(path(&["home", "me"]))).unwrap();
    assert_eq!(format!("{:?}", dir), format!("{:?}", path(&["home", "me", ".whitman", "profiles"])));
    assert_eq!(
        default_profiles_dir(None).unwrap_err().message(),
        "could not determine the user's home directory"
    );
    assert_eq!(
        format!("{:?}", old_profile_path(&dir)),
        format!("{:?}", path(&["home", "me", ".whitman", "profiles", "agents.old.md"]))
    );
}

#[test]
fn agents_md_is_no_global_profile_file() {
    match profile_name_from_path(&path(&["home", "agents.md"])) {
        Err(e) => assert_eq!(e.message(), "profile file name must match agents.<name>.md: agents.md"),
        Ok(_) => panic!("accepted agents.md"),
    }
    let entries = vec![
        ProfileFileEntry { path: path(&["home", "agents.md"]), is_file: true, contents: None },
        profile_file("agents.work.md", "<!-- whitman: Work -->\n"),
    ];
    let profiles = list_profiles(&entries).unwrap();
    assert_eq!(names_of(&profiles), ["work"]);
}
