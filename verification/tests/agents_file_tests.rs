use std::collections::HashMap;

use whitman::agents_file::{
    converted_contents, is_yes, normalize_absolute, ApplyAction, ApplyEvent, ApplyMachine, ApplyOutcome,
    AgentsError, EntryKind,
};
use whitman::path::{FsPath, PathPart, Platform};
use whitman::platform::windows_symlink_setup_instructions;
use whitman::profile::{descriptions_from_file, old_profile_path, parse_profile_file, Profile};

fn path(names: &[&str]) -> FsPath {
    let mut parts = vec![PathPart::RootDir];
    for name in names {
        parts.push(PathPart::Normal(name.to_string()));
    }
    FsPath { parts }
}

fn key(p: &FsPath) -> String {
    format!("{:?}", p)
}

enum Node {
    File(Vec<u8>),
    Link(FsPath),
    Dir,
}

/// An in-memory file system that performs the machine's actions.
struct Fs {
    nodes: HashMap<String, Node>,
}

impl Fs {
    fn new() -> Self {
        Fs { nodes: HashMap::new() }
    }

    fn write(&mut self, p: &FsPath, text: &str) {
        self.nodes.insert(key(p), Node::File(text.as_bytes().to_vec()));
    }

    fn link(&mut self, link: &FsPath, target: &FsPath) {
        self.nodes.insert(key(link), Node::Link(target.duplicate()));
    }

    fn read(&self, p: &FsPath) -> Option<String> {
        match self.nodes.get(&key(p)) {
            Some(Node::File(b)) => Some(String::from_utf8(b.clone()).unwrap()),
            _ => None,
        }
    }

    fn link_target(&self, p: &FsPath) -> Option<String> {
        match self.nodes.get(&key(p)) {
            Some(Node::Link(t)) => Some(key(t)),
            _ => None,
        }
    }

    fn perform(&mut self, action: ApplyAction, answer: bool, prompts: &mut u32) -> Result<ApplyEvent, Result<ApplyOutcome, AgentsError>> {
        Ok(match action {
            ApplyAction::CreateDir(p) => {
                self.nodes.entry(key(&p)).or_insert(Node::Dir);
                ApplyEvent::Done
            }
            ApplyAction::Inspect(p) => ApplyEvent::Kind(match self.nodes.get(&key(&p)) {
                None => EntryKind::Missing,
                Some(Node::File(_)) => EntryKind::File,
                Some(Node::Link(_)) => EntryKind::Symlink,
                Some(Node::Dir) => EntryKind::Other,
            }),
            ApplyAction::CreateSymlink { target, link } => {
                self.link(&link, &target);
                ApplyEvent::Done
            }
            ApplyAction::ReadLink(p) => match self.nodes.get(&key(&p)) {
                Some(Node::Link(t)) => ApplyEvent::Link(t.duplicate()),
                _ => ApplyEvent::Failed("not a link".to_string()),
            },
            ApplyAction::RemoveFile(p) => {
                self.nodes.remove(&key(&p));
                ApplyEvent::Done
            }
            ApplyAction::Confirm(_) => {
                *prompts += 1;
                ApplyEvent::Answer(answer)
            }
            ApplyAction::ReadFile(p) => match self.nodes.get(&key(&p)) {
                Some(Node::File(b)) => ApplyEvent::Bytes(b.clone()),
                _ => ApplyEvent::Failed("cannot read".to_string()),
            },
            ApplyAction::WriteBytes(p, b) => {
                self.nodes.insert(key(&p), Node::File(b));
                ApplyEvent::Done
            }
            ApplyAction::ReadDescriptions(dir) => {
                let text = self.read(&dir.join_name("descriptions.toml"));
                ApplyEvent::Descriptions(descriptions_from_file(text.as_deref()))
            }
            ApplyAction::WriteText(p, s) => {
                self.nodes.insert(key(&p), Node::File(s.into_bytes()));
                ApplyEvent::Done
            }
            ApplyAction::Finish(r) => return Err(r),
        })
    }
}

struct Fixture {
    fs: Fs,
    work_dir: FsPath,
    agents_dir: FsPath,
}

impl Fixture {
    fn new() -> Self {
        let mut fs = Fs::new();
        let work_dir = path(&["work"]);
        let agents_dir = path(&["agents"]);
        fs.nodes.insert(key(&work_dir), Node::Dir);
        fs.nodes.insert(key(&agents_dir), Node::Dir);
        Fixture { fs, work_dir, agents_dir }
    }

    fn write_profile(&mut self, name: &str, description: &str) -> Profile {
        let p = self.agents_dir.join_name(&format!("AGENTS.{name}.md"));
        self.fs.write(&p, &format!("{description}\nprofile body\n"));
        Profile { name: name.to_string(), description: description.to_string(), path: p }
    }

    fn agents_path(&self) -> FsPath {
        self.work_dir.join_name("AGENTS.md")
    }

    fn apply(&mut self, profile: &Profile, answer: bool) -> (Result<ApplyOutcome, AgentsError>, u32) {
        let (mut machine, mut action) = ApplyMachine::new(&self.work_dir, &self.agents_dir, &profile.path, Ok(path(&[])), Platform::Unix);
        let mut prompts = 0;
        loop {
            match self.fs.perform(action, answer, &mut prompts) {
                Err(result) => return (result, prompts),
                Ok(event) => {
                    assert!(machine.accepts(&event));
                    action = machine.step(event);
                }
            }
        }
    }
}

#[test]
fn creates_symlink_when_agents_file_is_absent() {
    let mut fixture = Fixture::new();
    let profile = fixture.write_profile("work", "Work");

    let (outcome, _) = fixture.apply(&profile, false);

    assert!(matches!(outcome, Ok(ApplyOutcome::Linked)));
    assert_eq!(fixture.fs.link_target(&fixture.agents_path()), Some(key(&profile.path)));
}

#[test]
fn replaces_existing_whitman_symlink() {
    let mut fixture = Fixture::new();
    let old_profile = fixture.write_profile("old", "Old");
    let new_profile = fixture.write_profile("new", "New");
    let agents_path = fixture.agents_path();
    fixture.fs.link(&agents_path, &old_profile.path);

    let (outcome, _) = fixture.apply(&new_profile, false);

    assert!(matches!(outcome, Ok(ApplyOutcome::ReplacedWhitmanSymlink)));
    assert_eq!(fixture.fs.link_target(&agents_path), Some(key(&new_profile.path)));
}

#[test]
fn refuses_external_agents_symlink_without_overwrite() {
    let mut fixture = Fixture::new();
    let profile = fixture.write_profile("work", "Work");
    let external = fixture.work_dir.join_name("external.md");
    fixture.fs.write(&external, "external");
    let agents_path = fixture.agents_path();
    fixture.fs.link(&agents_path, &external);

    let (outcome, _) = fixture.apply(&profile, true);

    assert!(matches!(outcome, Err(AgentsError::OutsideSymlink { .. })));
    assert_eq!(fixture.fs.link_target(&agents_path), Some(key(&external)));
}

#[test]
fn refuses_relative_symlink_that_climbs_out() {
    let mut fixture = Fixture::new();
    let profile = fixture.write_profile("work", "Work");
    let agents_path = fixture.agents_path();
    let sneaky = FsPath {
        parts: vec![
            PathPart::ParentDir,
            PathPart::Normal("agents".to_string()),
            PathPart::ParentDir,
            PathPart::Normal("elsewhere.md".to_string()),
        ],
    };
    fixture.fs.link(&agents_path, &sneaky);

    let (outcome, _) = fixture.apply(&profile, true);
    match outcome {
        Err(AgentsError::OutsideSymlink { target, .. }) => assert_eq!(key(&target), key(&path(&["elsewhere.md"]))),
        _ => panic!("expected a refusal"),
    }
    assert_eq!(fixture.fs.link_target(&agents_path), Some(key(&sneaky)));
}

#[test]
fn converts_existing_agents_file_to_old_profile() {
    let mut fixture = Fixture::new();
    let profile = fixture.write_profile("work", "Work");
    let agents_path = fixture.agents_path();
    fixture.fs.write(&agents_path, "legacy agents");

    let (outcome, _) = fixture.apply(&profile, false);

    let expected_old_path = old_profile_path(&fixture.agents_dir);
    match outcome {
        Ok(ApplyOutcome::ConvertedExistingFile { old_profile_path }) => assert_eq!(key(&old_profile_path), key(&expected_old_path)),
        _ => panic!("expected a conversion"),
    }
    let converted = fixture.fs.read(&expected_old_path).unwrap();
    assert_eq!(converted, "<!-- whitman: Converted from AGENTS.md -->\nlegacy agents");
    let text = fixture.fs.read(&fixture.agents_dir.join_name("descriptions.toml"));
    let descriptions = descriptions_from_file(text.as_deref());
    let old_profile = parse_profile_file(&expected_old_path, &descriptions).unwrap();
    assert_eq!(old_profile.name, "old");
    assert_eq!(old_profile.description, "Converted from AGENTS.md");
    assert_eq!(fixture.fs.link_target(&agents_path), Some(key(&profile.path)));
}

#[test]
fn confirms_before_overwriting_existing_old_profile() {
    let mut fixture = Fixture::new();
    let profile = fixture.write_profile("work", "Work");
    let agents_path = fixture.agents_path();
    fixture.fs.write(&agents_path, "legacy agents");
    let old_path = old_profile_path(&fixture.agents_dir);
    fixture.fs.write(&old_path, "previous old");

    let (outcome, prompts) = fixture.apply(&profile, false);

    assert!(matches!(outcome, Err(AgentsError::Cancelled(_))));
    assert_eq!(prompts, 1);
    assert_eq!(fixture.fs.read(&agents_path).unwrap(), "legacy agents");
    assert_eq!(fixture.fs.read(&old_path).unwrap(), "previous old");
}

#[test]
fn overwrites_existing_old_profile_after_confirmation() {
    let mut fixture = Fixture::new();
    let profile = fixture.write_profile("work", "Work");
    let agents_path = fixture.agents_path();
    fixture.fs.write(&agents_path, "legacy agents");
    let old_path = old_profile_path(&fixture.agents_dir);
    fixture.fs.write(&old_path, "previous old");

    let (outcome, prompts) = fixture.apply(&profile, true);

    assert!(outcome.is_ok());
    assert_eq!(prompts, 1);
    assert_eq!(
        fixture.fs.read(&old_path).unwrap(),
        "<!-- whitman: Converted from AGENTS.md -->\nlegacy agents"
    );
    assert_eq!(fixture.fs.link_target(&agents_path), Some(key(&profile.path)));
}

#[test]
fn refuses_directory_in_place_of_agents_file() {
    let mut fixture = Fixture::new();
    let profile = fixture.write_profile("work", "Work");
    let agents_path = fixture.agents_path();
    fixture.fs.nodes.insert(key(&agents_path), Node::Dir);

    let (outcome, _) = fixture.apply(&profile, true);
    assert!(matches!(outcome, Err(AgentsError::NotRegularFile)));
}

#[test]
fn refuses_directory_at_old_profile_path() {
    let mut fixture = Fixture::new();
    let profile = fixture.write_profile("work", "Work");
    let agents_path = fixture.agents_path();
    fixture.fs.write(&agents_path, "legacy agents");
    let old_path = old_profile_path(&fixture.agents_dir);
    fixture.fs.nodes.insert(key(&old_path), Node::Dir);

    let (outcome, _) = fixture.apply(&profile, true);
    assert!(matches!(outcome, Err(AgentsError::OldProfileNotFile(_))));
    assert_eq!(fixture.fs.read(&agents_path).unwrap(), "legacy agents");
}

#[test]
fn a_failed_operation_ends_the_run() {
    let work_dir = path(&["work"]);
    let agents_dir = path(&["agents"]);
    let profile = path(&["agents", "AGENTS.work.md"]);
    let (mut machine, action) = ApplyMachine::new(&work_dir, &agents_dir, &profile, Ok(path(&[])), Platform::Unix);
    assert!(matches!(action, ApplyAction::CreateDir(_)));
    let event = ApplyEvent::Failed("failed to create /agents".to_string());
    assert!(machine.accepts(&event));
    match machine.step(event) {
        ApplyAction::Finish(Err(AgentsError::Io(message))) => assert_eq!(message, "failed to create /agents"),
        _ => panic!("expected the failure"),
    }
    assert!(!machine.accepts(&ApplyEvent::Done));
}

#[test]
fn keeps_the_text_behind_the_header() {
    assert_eq!(
        converted_contents(b"abc"),
        b"<!-- whitman: Converted from AGENTS.md -->\nabc".to_vec()
    );
}

#[test]
fn normalizes_relative_paths_against_the_current_directory() {
    let relative = FsPath {
        parts: vec![
            PathPart::CurDir,
            PathPart::Normal("a".to_string()),
            PathPart::ParentDir,
            PathPart::ParentDir,
            PathPart::ParentDir,
            PathPart::Normal("b".to_string()),
        ],
    };
    let cwd: Result<FsPath, String> = Ok(path(&["home"]));
    let normalized = normalize_absolute(&relative, &cwd, Platform::Unix).unwrap();
    assert_eq!(key(&normalized), key(&path(&["b"])));
    let failed: Result<FsPath, String> = Err("no current directory".to_string());
    assert!(matches!(normalize_absolute(&relative, &failed, Platform::Unix), Err(AgentsError::CurrentDir(_))));
    assert!(normalize_absolute(&path(&["x"]), &failed, Platform::Unix).is_ok());
}

#[test]
fn windows_symlink_guidance_explains_no_copy_fallback() {
    let error = std::io::Error::new(std::io::ErrorKind::PermissionDenied, "denied");
    let message = windows_symlink_setup_instructions(&error.to_string());

    assert!(message.contains("Developer Mode"));
    assert!(message.contains("Administrator"));
    assert!(message.contains("does not copy"));
    assert!(message.starts_with("denied. Windows"));
}

#[test]
fn absolute_paths_follow_the_platform_rule() {
    let rooted = path(&["a", "b"]);
    assert!(rooted.is_absolute(Platform::Unix));
    assert!(!rooted.is_absolute(Platform::Windows));

    let drive_rooted = FsPath {
        parts: vec![
            PathPart::Prefix("C:".to_string()),
            PathPart::RootDir,
            PathPart::Normal("a".to_string()),
        ],
    };
    assert!(drive_rooted.is_absolute(Platform::Windows));
    let drive_relative = FsPath {
        parts: vec![PathPart::Prefix("C:".to_string()), PathPart::Normal("a".to_string())],
    };
    assert!(!drive_relative.is_absolute(Platform::Windows));
    let share = FsPath { parts: vec![PathPart::RootedPrefix("\\\\server\\share".to_string())] };
    assert!(share.is_absolute(Platform::Windows));

    // On Windows `\a\b` is taken against the current directory.
    let cwd: Result<FsPath, String> = Ok(drive_rooted.duplicate());
    let on_windows = normalize_absolute(&rooted, &cwd, Platform::Windows).unwrap();
    let expected = FsPath {
        parts: vec![
            PathPart::Prefix("C:".to_string()),
            PathPart::RootDir,
            PathPart::Normal("a".to_string()),
            PathPart::Normal("b".to_string()),
        ],
    };
    assert_eq!(key(&on_windows), key(&expected));
    // A prefix inside the path starts it afresh.
    let other_drive = FsPath {
        parts: vec![
            PathPart::Prefix("D:".to_string()),
            PathPart::RootDir,
            PathPart::Normal("x".to_string()),
        ],
    };
    let joined = drive_relative_dir().concat(&other_drive);
    let normalized = normalize_absolute(&joined, &cwd, Platform::Windows).unwrap();
    assert_eq!(key(&normalized), key(&other_drive));
    let on_unix = normalize_absolute(&rooted, &cwd, Platform::Unix).unwrap();
    assert_eq!(key(&on_unix), key(&rooted));
}

fn drive_relative_dir() -> FsPath {
    FsPath {
        parts: vec![
            PathPart::Prefix("C:".to_string()),
            PathPart::RootDir,
            PathPart::Normal("w".to_string()),
        ],
    }
}

#[test]
fn accepts_the_yes_answers_only() {
    for answer in ["y", "Y", "yes", "YES", "Yes", "  yes\n", "y\r\n"] {
        assert!(is_yes(answer), "{answer:?}");
    }
    for answer in ["", "n", "no", "yES", "ye", "yes please", "\n"] {
        assert!(!is_yes(answer), "{answer:?}");
    }
}
