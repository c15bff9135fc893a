//! Putting the chosen profile in place as `./AGENTS.md`: the checks on
//! symbolic links and the steps of replacing what is there.

use vstd::prelude::*;
use crate::path::{is_absolute, is_prefix_path, join_name, parent_of, FsPath, PartView, PathPart, Platform};
use crate::descriptions::{DescriptionTable, EntryView};
use crate::profile::{descriptions_path, old_profile_path, read_view, write_profile_description, written_description, ProfileError, ProfileErrorView};
use crate::utf8_bytes::{header_bytes, old_profile_header};
use crate::text::{chars_of, string_from_chars, trim, trim_chars};

verus! {

broadcast use vstd::string::group_string_axioms;

/// The file that receives the chosen profile.
pub const AGENTS_FILE_NAME: &'static str = "AGENTS.md";

/// Why putting the profile in place failed.
#[derive(Debug)]
pub enum AgentsError {
    /// A file operation failed; the message says which and why.
    Io(String),
    /// The current directory could not be determined; the message says why.
    CurrentDir(String),
    /// The symbolic link has no parent directory to resolve against.
    NoParent(FsPath),
    /// `AGENTS.md` is a symbolic link to `target`, outside `agents_dir`.
    OutsideSymlink { target: FsPath, agents_dir: FsPath },
    /// `AGENTS.md` is neither a regular file nor a symbolic link.
    NotRegularFile,
    /// The user declined to overwrite the old profile at this path.
    Cancelled(FsPath),
    /// The old profile path holds something that is not a file.
    OldProfileNotFile(FsPath),
    /// Recording the old profile's description failed.
    Description(crate::profile::ProfileError),
}

/// `acc` with its last name removed, when it has one (`PathBuf::pop`).
pub open spec fn pop_name(acc: Seq<PartView>) -> Seq<PartView> {
    match parent_of(acc) {
        Some(p) => p,
        None => acc,
    }
}

/// The prefix that `acc` starts with, if any.
pub open spec fn prefix_of(acc: Seq<PartView>) -> Seq<PartView> {
    if acc.len() > 0 && (acc[0] is Prefix || acc[0] is RootedPrefix) {
        acc.take(1)
    } else {
        Seq::empty()
    }
}

/// `acc` with one more component, as `PathBuf::push` takes it: `.` is
/// dropped, `..` removes the name before it, a root directory keeps only
/// the prefix before it, and a prefix starts the path afresh.
pub open spec fn push_part(acc: Seq<PartView>, part: PartView) -> Seq<PartView> {
    match part {
        PartView::CurDir => acc,
        PartView::ParentDir => pop_name(acc),
        PartView::RootDir => prefix_of(acc).push(PartView::RootDir),
        PartView::Prefix(_) | PartView::RootedPrefix(_) => seq![part],
        PartView::Normal(_) => acc.push(part),
    }
}

/// `parts` pushed one by one onto `acc`.
pub open spec fn normalize_from(acc: Seq<PartView>, parts: Seq<PartView>) -> Seq<PartView>
    decreases parts.len(),
{
    if parts.len() == 0 {
        acc
    } else {
        normalize_from(push_part(acc, parts[0]), parts.drop_first())
    }
}

/// The outcome of asking for the current directory.
pub open spec fn cwd_view(cwd: Result<FsPath, String>) -> Result<Seq<PartView>, Seq<char>> {
    match cwd {
        Ok(p) => Ok(p@),
        Err(m) => Err(m@),
    }
}

/// What `normalize_absolute` gives: the absolute form of `path` with `.`
/// and `..` resolved, or the failure to find the current directory when it
/// is needed.
pub open spec fn normalized(path: Seq<PartView>, cwd: Result<Seq<PartView>, Seq<char>>, platform: Platform) -> Result<Seq<PartView>, Seq<char>> {
    if is_absolute(path, platform) {
        Ok(normalize_from(Seq::empty(), path))
    } else {
        match cwd {
            Ok(c) => Ok(normalize_from(Seq::empty(), c + path)),
            Err(m) => Err(m),
        }
    }
}

fn pop_name_exec(acc: &mut Vec<PathPart>)
    ensures
        final(acc)@.map_values(|p: PathPart| p@) == pop_name(old(acc)@.map_values(|p: PathPart| p@)),
{
    let ghost a = acc@.map_values(|p: PathPart| p@);
    let n = acc.len();
    if n == 0 {
        return;
    }
    let is_name = match &acc[n - 1] {
        PathPart::Normal(_) | PathPart::CurDir | PathPart::ParentDir => true,
        _ => false,
    };
    assert(a.last() == acc@[n - 1]@);
    if is_name {
        acc.pop();
        assert(acc@.map_values(|p: PathPart| p@) =~= a.drop_last());
    }
}

/// Resolves `.` and `..` in `path` made absolute against the current
/// directory `cwd`, component by component (`..` at the root stays at the
/// root).
pub fn normalize_absolute(path: &FsPath, cwd: &Result<FsPath, String>, platform: Platform) -> (r: Result<FsPath, AgentsError>)
    ensures
        match normalized(path@, cwd_view(*cwd), platform) {
            Ok(p) => r matches Ok(q) && q@ == p,
            Err(m) => r matches Err(AgentsError::CurrentDir(n)) && n@ == m,
        },
{
    let absolute = if path.is_absolute(platform) {
        path.duplicate()
    } else {
        match cwd {
            Ok(c) => c.concat(path),
            Err(m) => return Err(AgentsError::CurrentDir(m.clone())),
        }
    };
    let ghost parts = absolute@;
    let mut out: Vec<PathPart> = Vec::new();
    let n = absolute.parts.len();
    let mut i: usize = 0;
    assert(parts.skip(0) =~= parts);
    assert(out@.map_values(|p: PathPart| p@) =~= Seq::<PartView>::empty());
    while i < n
        invariant
            i <= n == absolute.parts@.len() == parts.len(),
            parts == absolute@,
            normalize_from(Seq::empty(), parts) == normalize_from(out@.map_values(|p: PathPart| p@), parts.skip(i as int)),
        decreases n - i,
    {
        let ghost rest = parts.skip(i as int);
        assert(rest.drop_first() =~= parts.skip(i + 1));
        assert(rest[0] == absolute.parts@[i as int]@);
        let ghost before = out@.map_values(|p: PathPart| p@);
        match &absolute.parts[i] {
            PathPart::CurDir => {},
            PathPart::ParentDir => {
                pop_name_exec(&mut out);
            },
            PathPart::RootDir => {
                let keep: usize = if out.len() > 0 {
                    match &out[0] {
                        PathPart::Prefix(_) | PathPart::RootedPrefix(_) => 1,
                        _ => 0,
                    }
                } else {
                    0
                };
                proof {
                    if out@.len() > 0 {
                        assert(before[0] == out@[0]@);
                    }
                }
                out.truncate(keep);
                out.push(PathPart::RootDir);
                assert(out@.map_values(|p: PathPart| p@) =~= prefix_of(before).push(PartView::RootDir));
            },
            PathPart::Prefix(_) | PathPart::RootedPrefix(_) => {
                out = Vec::new();
                out.push(absolute.parts[i].duplicate());
                assert(out@.map_values(|p: PathPart| p@) =~= seq![rest[0]]);
            },
            other => {
                out.push(other.duplicate());
                assert(out@.map_values(|p: PathPart| p@) =~= before.push(rest[0]));
            },
        }
        i = i + 1;
    }
    assert(parts.skip(n as int) =~= Seq::<PartView>::empty());
    Ok(FsPath { parts: out })
}

/// What `resolve_link_target` gives: the target of the link at
/// `link_path`, taken against the link's directory when relative, then
/// normalized.
pub open spec fn resolved_target(link_path: Seq<PartView>, target: Seq<PartView>, cwd: Result<Seq<PartView>, Seq<char>>, platform: Platform) -> Option<Result<Seq<PartView>, Seq<char>>> {
    if is_absolute(target, platform) {
        Some(normalized(target, cwd, platform))
    } else {
        match parent_of(link_path) {
            None => None,
            Some(dir) => Some(normalized(dir + target, cwd, platform)),
        }
    }
}

/// The absolute, normalized path that the link at `link_path`, holding
/// `target`, points to.
pub fn resolve_link_target(link_path: &FsPath, target: &FsPath, cwd: &Result<FsPath, String>, platform: Platform) -> (r: Result<FsPath, AgentsError>)
    ensures
        match resolved_target(link_path@, target@, cwd_view(*cwd), platform) {
            None => r matches Err(AgentsError::NoParent(p)) && p@ == link_path@,
            Some(Ok(p)) => r matches Ok(q) && q@ == p,
            Some(Err(m)) => r matches Err(AgentsError::CurrentDir(n)) && n@ == m,
        },
{
    if target.is_absolute(platform) {
        normalize_absolute(target, cwd, platform)
    } else {
        match link_path.parent() {
            None => Err(AgentsError::NoParent(link_path.duplicate())),
            Some(dir) => {
                let joined = dir.concat(target);
                normalize_absolute(&joined, cwd, platform)
            },
        }
    }
}

pub enum AgentsErrorView {
    Io(Seq<char>),
    CurrentDir(Seq<char>),
    NoParent(Seq<PartView>),
    OutsideSymlink(Seq<PartView>, Seq<PartView>),
    NotRegularFile,
    Cancelled(Seq<PartView>),
    OldProfileNotFile(Seq<PartView>),
    Description(ProfileErrorView),
}

impl View for AgentsError {
    type V = AgentsErrorView;

    open spec fn view(&self) -> AgentsErrorView {
        match self {
            AgentsError::Io(m) => AgentsErrorView::Io(m@),
            AgentsError::CurrentDir(m) => AgentsErrorView::CurrentDir(m@),
            AgentsError::NoParent(p) => AgentsErrorView::NoParent(p@),
            AgentsError::OutsideSymlink { target, agents_dir } => AgentsErrorView::OutsideSymlink(target@, agents_dir@),
            AgentsError::NotRegularFile => AgentsErrorView::NotRegularFile,
            AgentsError::Cancelled(p) => AgentsErrorView::Cancelled(p@),
            AgentsError::OldProfileNotFile(p) => AgentsErrorView::OldProfileNotFile(p@),
            AgentsError::Description(e) => AgentsErrorView::Description(e@),
        }
    }
}

/// The verdict on replacing the link at `agents_path`, which holds
/// `target`: allowed when it points into `agents_dir`.
pub open spec fn link_check(agents_path: Seq<PartView>, target: Seq<PartView>, agents_dir: Seq<PartView>, cwd: Result<Seq<PartView>, Seq<char>>, platform: Platform) -> Result<(), AgentsErrorView> {
    match resolved_target(agents_path, target, cwd, platform) {
        None => Err(AgentsErrorView::NoParent(agents_path)),
        Some(Err(m)) => Err(AgentsErrorView::CurrentDir(m)),
        Some(Ok(resolved)) => match normalized(agents_dir, cwd, platform) {
            Err(m) => Err(AgentsErrorView::CurrentDir(m)),
            Ok(dir) => if is_prefix_path(resolved, dir) {
                Ok(())
            } else {
                Err(AgentsErrorView::OutsideSymlink(resolved, dir))
            },
        },
    }
}

/// Replacing the link is allowed exactly when its target and the profile
/// directory both resolve, and the resolved target begins, component by
/// component, with the resolved profile directory.
pub proof fn law_link_must_point_inside(agents_path: Seq<PartView>, target: Seq<PartView>, agents_dir: Seq<PartView>, cwd: Result<Seq<PartView>, Seq<char>>, platform: Platform)
    ensures
        link_check(agents_path, target, agents_dir, cwd, platform) is Ok <==> {
            &&& resolved_target(agents_path, target, cwd, platform) matches Some(Ok(r))
            &&& normalized(agents_dir, cwd, platform) matches Ok(d)
            &&& d.len() <= r.len()
            &&& forall|i: int| 0 <= i < d.len() ==> r[i] == d[i]
        },
{
    match resolved_target(agents_path, target, cwd, platform) {
        Some(Ok(r)) => match normalized(agents_dir, cwd, platform) {
            Ok(d) => crate::path::law_prefix_path_componentwise(r, d),
            Err(_) => {},
        },
        _ => {},
    }
}

/// Refuses to replace `./AGENTS.md` when it is a symbolic link (holding
/// `target`) that points outside the profile directory.
pub fn ensure_whitman_symlink(agents_path: &FsPath, target: &FsPath, agents_dir: &FsPath, cwd: &Result<FsPath, String>, platform: Platform) -> (r: Result<(), AgentsError>)
    ensures
        match link_check(agents_path@, target@, agents_dir@, cwd_view(*cwd), platform) {
            Ok(_) => r is Ok,
            Err(e) => r matches Err(f) && f@ == e,
        },
{
    let resolved = resolve_link_target(agents_path, target, cwd, platform)?;
    let dir = normalize_absolute(agents_dir, cwd, platform)?;
    if !resolved.starts_with(&dir) {
        return Err(AgentsError::OutsideSymlink { target: resolved, agents_dir: dir });
    }
    Ok(())
}

/// How a step of putting the profile in place ended.
#[derive(Debug)]
pub enum ApplyOutcome {
    /// `AGENTS.md` did not exist and now links to the profile.
    Linked,
    /// `AGENTS.md` linked into the profile directory and now links to the
    /// chosen profile.
    ReplacedWhitmanSymlink,
    /// `AGENTS.md` was a regular file; its text is kept at
    /// `old_profile_path` and `AGENTS.md` now links to the profile.
    ConvertedExistingFile { old_profile_path: FsPath },
}

pub enum ApplyOutcomeView {
    Linked,
    ReplacedWhitmanSymlink,
    ConvertedExistingFile(Seq<PartView>),
}

impl View for ApplyOutcome {
    type V = ApplyOutcomeView;

    open spec fn view(&self) -> ApplyOutcomeView {
        match self {
            ApplyOutcome::Linked => ApplyOutcomeView::Linked,
            ApplyOutcome::ReplacedWhitmanSymlink => ApplyOutcomeView::ReplacedWhitmanSymlink,
            ApplyOutcome::ConvertedExistingFile { old_profile_path } => ApplyOutcomeView::ConvertedExistingFile(old_profile_path@),
        }
    }
}

/// Asks the user a yes/no question.
pub trait Confirm {
    fn confirm(&mut self, message: &str) -> Result<bool, String>;
}

/// An answer to a yes/no question means yes: once trimmed it is `y`, `Y`,
/// `yes`, `YES` or `Yes`.
pub open spec fn means_yes(answer: Seq<char>) -> bool {
    let a = trim(answer);
    a == "y"@ || a == "Y"@ || a == "yes"@ || a == "YES"@ || a == "Yes"@
}

/// Whether the typed `answer` means yes (see [`means_yes`]).
pub fn is_yes(answer: &str) -> (r: bool)
    ensures
        r == means_yes(answer@),
{
    let chars = chars_of(answer);
    let a = string_from_chars(trim_chars(chars.as_slice()).as_slice());
    a.eq(&String::from_str("y")) || a.eq(&String::from_str("Y")) || a.eq(&String::from_str("yes"))
        || a.eq(&String::from_str("YES")) || a.eq(&String::from_str("Yes"))
}

/// What is at a path, without following a final symbolic link.
#[derive(Debug, Clone, Copy, PartialEq, Eq, Structural)]
pub enum EntryKind {
    Missing,
    File,
    Symlink,
    Other,
}

/// Where putting the profile in place stands; each stage waits for the
/// outcome of one file operation.
#[derive(Debug, Clone, Copy, PartialEq, Eq, Structural)]
pub enum ApplyStage {
    CreatingDir,
    InspectingAgents,
    LinkingFresh,
    ReadingLink,
    RemovingLink,
    Relinking,
    InspectingOld,
    Confirming(EntryKind),
    RemovingOld,
    ReadingAgents,
    WritingOld,
    ReadingDescriptions,
    WritingDescriptions,
    RemovingAgents,
    LinkingConverted,
    Finished,
}

/// The file operation to perform next, or the end.
#[derive(Debug)]
pub enum ApplyAction {
    /// Create the directory and its parents.
    CreateDir(FsPath),
    /// Report what is at the path ([`EntryKind`]).
    Inspect(FsPath),
    /// Make `link` a symbolic link to `target`.
    CreateSymlink { target: FsPath, link: FsPath },
    /// Report the target of the symbolic link.
    ReadLink(FsPath),
    RemoveFile(FsPath),
    /// Ask whether to overwrite the old profile at this path.
    Confirm(FsPath),
    ReadFile(FsPath),
    WriteBytes(FsPath, Vec<u8>),
    /// Read the descriptions file of this profile directory.
    ReadDescriptions(FsPath),
    WriteText(FsPath, String),
    Finish(Result<ApplyOutcome, AgentsError>),
}

pub enum ApplyActionView {
    CreateDir(Seq<PartView>),
    Inspect(Seq<PartView>),
    CreateSymlink(Seq<PartView>, Seq<PartView>),
    ReadLink(Seq<PartView>),
    RemoveFile(Seq<PartView>),
    Confirm(Seq<PartView>),
    ReadFile(Seq<PartView>),
    WriteBytes(Seq<PartView>, Seq<u8>),
    ReadDescriptions(Seq<PartView>),
    WriteText(Seq<PartView>, Seq<char>),
    Finish(Result<ApplyOutcomeView, AgentsErrorView>),
}

impl View for ApplyAction {
    type V = ApplyActionView;

    open spec fn view(&self) -> ApplyActionView {
        match self {
            ApplyAction::CreateDir(p) => ApplyActionView::CreateDir(p@),
            ApplyAction::Inspect(p) => ApplyActionView::Inspect(p@),
            ApplyAction::CreateSymlink { target, link } => ApplyActionView::CreateSymlink(target@, link@),
            ApplyAction::ReadLink(p) => ApplyActionView::ReadLink(p@),
            ApplyAction::RemoveFile(p) => ApplyActionView::RemoveFile(p@),
            ApplyAction::Confirm(p) => ApplyActionView::Confirm(p@),
            ApplyAction::ReadFile(p) => ApplyActionView::ReadFile(p@),
            ApplyAction::WriteBytes(p, b) => ApplyActionView::WriteBytes(p@, b@),
            ApplyAction::ReadDescriptions(p) => ApplyActionView::ReadDescriptions(p@),
            ApplyAction::WriteText(p, s) => ApplyActionView::WriteText(p@, s@),
            ApplyAction::Finish(Ok(o)) => ApplyActionView::Finish(Ok(o@)),
            ApplyAction::Finish(Err(e)) => ApplyActionView::Finish(Err(e@)),
        }
    }
}

/// The outcome of the last file operation.
#[derive(Debug)]
pub enum ApplyEvent {
    /// The operation succeeded.
    Done,
    /// What `Inspect` found.
    Kind(EntryKind),
    /// The target `ReadLink` found.
    Link(FsPath),
    /// The user's answer to `Confirm`.
    Answer(bool),
    /// The bytes `ReadFile` found.
    Bytes(Vec<u8>),
    /// What reading the descriptions file gave.
    Descriptions(Result<DescriptionTable, ProfileError>),
    /// The operation failed; the message says why.
    Failed(String),
}

pub enum ApplyEventView {
    Done,
    Kind(EntryKind),
    Link(Seq<PartView>),
    Answer(bool),
    Bytes(Seq<u8>),
    Descriptions(Result<Seq<EntryView>, ProfileErrorView>),
    Failed(Seq<char>),
}

impl View for ApplyEvent {
    type V = ApplyEventView;

    open spec fn view(&self) -> ApplyEventView {
        match self {
            ApplyEvent::Done => ApplyEventView::Done,
            ApplyEvent::Kind(k) => ApplyEventView::Kind(*k),
            ApplyEvent::Link(p) => ApplyEventView::Link(p@),
            ApplyEvent::Answer(b) => ApplyEventView::Answer(*b),
            ApplyEvent::Bytes(b) => ApplyEventView::Bytes(b@),
            ApplyEvent::Descriptions(r) => ApplyEventView::Descriptions(read_view(*r)),
            ApplyEvent::Failed(m) => ApplyEventView::Failed(m@),
        }
    }
}

/// Puts a profile in place as `./AGENTS.md`, one file operation at a time:
/// the caller performs each [`ApplyAction`] and reports its outcome.
#[derive(Debug)]
pub struct ApplyMachine {
    pub agents_dir: FsPath,
    pub agents_path: FsPath,
    pub old_path: FsPath,
    pub profile_path: FsPath,
    pub cwd: Result<FsPath, String>,
    pub platform: Platform,
    pub stage: ApplyStage,
}

pub struct ApplyMachineView {
    pub agents_dir: Seq<PartView>,
    pub agents_path: Seq<PartView>,
    pub old_path: Seq<PartView>,
    pub profile_path: Seq<PartView>,
    pub cwd: Result<Seq<PartView>, Seq<char>>,
    pub platform: Platform,
    pub stage: ApplyStage,
}

impl View for ApplyMachine {
    type V = ApplyMachineView;

    open spec fn view(&self) -> ApplyMachineView {
        ApplyMachineView {
            agents_dir: self.agents_dir@,
            agents_path: self.agents_path@,
            old_path: self.old_path@,
            profile_path: self.profile_path@,
            cwd: cwd_view(self.cwd),
            platform: self.platform,
            stage: self.stage,
        }
    }
}

/// The events a stage waits for.
pub open spec fn accepts(stage: ApplyStage, event: ApplyEventView) -> bool {
    match stage {
        ApplyStage::Finished => false,
        _ => match event {
            ApplyEventView::Failed(_) => true,
            ApplyEventView::Done => match stage {
                ApplyStage::CreatingDir | ApplyStage::LinkingFresh | ApplyStage::RemovingLink | ApplyStage::Relinking | ApplyStage::RemovingOld | ApplyStage::WritingOld | ApplyStage::WritingDescriptions | ApplyStage::RemovingAgents | ApplyStage::LinkingConverted => true,
                _ => false,
            },
            ApplyEventView::Kind(_) => stage == ApplyStage::InspectingAgents || stage == ApplyStage::InspectingOld,
            ApplyEventView::Link(_) => stage == ApplyStage::ReadingLink,
            ApplyEventView::Answer(_) => stage is Confirming,
            ApplyEventView::Bytes(_) => stage == ApplyStage::ReadingAgents,
            ApplyEventView::Descriptions(_) => stage == ApplyStage::ReadingDescriptions,
        },
    }
}

/// The name and description recorded for a file taken over from
/// `AGENTS.md`.
pub open spec fn old_profile_name() -> Seq<char> {
    "old"@
}

pub open spec fn old_profile_description() -> Seq<char> {
    "Converted from AGENTS.md"@
}

/// One step: the next stage and the next action, after `event`.
pub open spec fn apply_step(m: ApplyMachineView, event: ApplyEventView) -> (ApplyStage, ApplyActionView) {
    match event {
        ApplyEventView::Failed(msg) => (ApplyStage::Finished, ApplyActionView::Finish(Err(AgentsErrorView::Io(msg)))),
        _ => match m.stage {
            ApplyStage::CreatingDir => (ApplyStage::InspectingAgents, ApplyActionView::Inspect(m.agents_path)),
            ApplyStage::InspectingAgents => match event {
                ApplyEventView::Kind(EntryKind::Missing) => (ApplyStage::LinkingFresh, ApplyActionView::CreateSymlink(m.profile_path, m.agents_path)),
                ApplyEventView::Kind(EntryKind::Symlink) => (ApplyStage::ReadingLink, ApplyActionView::ReadLink(m.agents_path)),
                ApplyEventView::Kind(EntryKind::File) => (ApplyStage::InspectingOld, ApplyActionView::Inspect(m.old_path)),
                _ => (ApplyStage::Finished, ApplyActionView::Finish(Err(AgentsErrorView::NotRegularFile))),
            },
            ApplyStage::LinkingFresh => (ApplyStage::Finished, ApplyActionView::Finish(Ok(ApplyOutcomeView::Linked))),
            ApplyStage::ReadingLink => match event {
                ApplyEventView::Link(target) => match link_check(m.agents_path, target, m.agents_dir, m.cwd, m.platform) {
                    Ok(_) => (ApplyStage::RemovingLink, ApplyActionView::RemoveFile(m.agents_path)),
                    Err(e) => (ApplyStage::Finished, ApplyActionView::Finish(Err(e))),
                },
                _ => (ApplyStage::Finished, ApplyActionView::Finish(Err(AgentsErrorView::NotRegularFile))),
            },
            ApplyStage::RemovingLink => (ApplyStage::Relinking, ApplyActionView::CreateSymlink(m.profile_path, m.agents_path)),
            ApplyStage::Relinking => (ApplyStage::Finished, ApplyActionView::Finish(Ok(ApplyOutcomeView::ReplacedWhitmanSymlink))),
            ApplyStage::InspectingOld => match event {
                ApplyEventView::Kind(EntryKind::Missing) => (ApplyStage::ReadingAgents, ApplyActionView::ReadFile(m.agents_path)),
                ApplyEventView::Kind(k) => (ApplyStage::Confirming(k), ApplyActionView::Confirm(m.old_path)),
                _ => (ApplyStage::Finished, ApplyActionView::Finish(Err(AgentsErrorView::NotRegularFile))),
            },
            ApplyStage::Confirming(k) => match event {
                ApplyEventView::Answer(false) => (ApplyStage::Finished, ApplyActionView::Finish(Err(AgentsErrorView::Cancelled(m.old_path)))),
                _ => if k == EntryKind::File || k == EntryKind::Symlink {
                    (ApplyStage::RemovingOld, ApplyActionView::RemoveFile(m.old_path))
                } else {
                    (ApplyStage::Finished, ApplyActionView::Finish(Err(AgentsErrorView::OldProfileNotFile(m.old_path))))
                },
            },
            ApplyStage::RemovingOld => (ApplyStage::ReadingAgents, ApplyActionView::ReadFile(m.agents_path)),
            ApplyStage::ReadingAgents => match event {
                ApplyEventView::Bytes(b) => (ApplyStage::WritingOld, ApplyActionView::WriteBytes(m.old_path, old_profile_header() + b)),
                _ => (ApplyStage::Finished, ApplyActionView::Finish(Err(AgentsErrorView::NotRegularFile))),
            },
            ApplyStage::WritingOld => (ApplyStage::ReadingDescriptions, ApplyActionView::ReadDescriptions(m.agents_dir)),
            ApplyStage::ReadingDescriptions => match event {
                ApplyEventView::Descriptions(d) => match written_description(d, old_profile_name(), old_profile_description()) {
                    Ok(text) => (ApplyStage::WritingDescriptions, ApplyActionView::WriteText(join_name(m.agents_dir, crate::profile::DESCRIPTIONS_FILE_NAME@), text)),
                    Err(e) => (ApplyStage::Finished, ApplyActionView::Finish(Err(AgentsErrorView::Description(e)))),
                },
                _ => (ApplyStage::Finished, ApplyActionView::Finish(Err(AgentsErrorView::NotRegularFile))),
            },
            ApplyStage::WritingDescriptions => (ApplyStage::RemovingAgents, ApplyActionView::RemoveFile(m.agents_path)),
            ApplyStage::RemovingAgents => (ApplyStage::LinkingConverted, ApplyActionView::CreateSymlink(m.profile_path, m.agents_path)),
            ApplyStage::LinkingConverted => (ApplyStage::Finished, ApplyActionView::Finish(Ok(ApplyOutcomeView::ConvertedExistingFile(m.old_path)))),
            ApplyStage::Finished => (ApplyStage::Finished, ApplyActionView::Finish(Err(AgentsErrorView::NotRegularFile))),
        },
    }
}

impl ApplyMachine {
    /// Starts putting the profile at `profile_path` in place as
    /// `work_dir/AGENTS.md`, with `agents_dir` the profile directory and
    /// `cwd` what asking for the current directory gave. The first action
    /// creates the profile directory.
    pub fn new(work_dir: &FsPath, agents_dir: &FsPath, profile_path: &FsPath, cwd: Result<FsPath, String>, platform: Platform) -> (r: (ApplyMachine, ApplyAction))
        ensures
            r.0@ == (ApplyMachineView {
                agents_dir: agents_dir@,
                agents_path: join_name(work_dir@, AGENTS_FILE_NAME@),
                old_path: join_name(agents_dir@, "AGENTS.old.md"@),
                profile_path: profile_path@,
                cwd: cwd_view(cwd),
                platform,
                stage: ApplyStage::CreatingDir,
            }),
            r.1@ == ApplyActionView::CreateDir(agents_dir@),
    {
        let m = ApplyMachine {
            agents_dir: agents_dir.duplicate(),
            agents_path: work_dir.join_name(AGENTS_FILE_NAME),
            old_path: old_profile_path(agents_dir),
            profile_path: profile_path.duplicate(),
            cwd,
            platform,
            stage: ApplyStage::CreatingDir,
        };
        (m, ApplyAction::CreateDir(agents_dir.duplicate()))
    }

    /// Whether the machine waits for `event`.
    pub fn accepts(&self, event: &ApplyEvent) -> (r: bool)
        ensures
            r == accepts(self.stage, event@),
    {
        match self.stage {
            ApplyStage::Finished => false,
            stage => match event {
                ApplyEvent::Failed(_) => true,
                ApplyEvent::Done => match stage {
                    ApplyStage::CreatingDir | ApplyStage::LinkingFresh | ApplyStage::RemovingLink | ApplyStage::Relinking | ApplyStage::RemovingOld | ApplyStage::WritingOld | ApplyStage::WritingDescriptions | ApplyStage::RemovingAgents | ApplyStage::LinkingConverted => true,
                    _ => false,
                },
                ApplyEvent::Kind(_) => match stage {
                    ApplyStage::InspectingAgents | ApplyStage::InspectingOld => true,
                    _ => false,
                },
                ApplyEvent::Link(_) => match stage {
                    ApplyStage::ReadingLink => true,
                    _ => false,
                },
                ApplyEvent::Answer(_) => match stage {
                    ApplyStage::Confirming(_) => true,
                    _ => false,
                },
                ApplyEvent::Bytes(_) => match stage {
                    ApplyStage::ReadingAgents => true,
                    _ => false,
                },
                ApplyEvent::Descriptions(_) => match stage {
                    ApplyStage::ReadingDescriptions => true,
                    _ => false,
                },
            },
        }
    }

    fn finish_err(&mut self, e: AgentsError) -> (a: ApplyAction)
        ensures
            final(self)@ == (ApplyMachineView { stage: ApplyStage::Finished, ..old(self)@ }),
            a@ == ApplyActionView::Finish(Err(e@)),
    {
        self.stage = ApplyStage::Finished;
        ApplyAction::Finish(Err(e))
    }

    /// Takes the outcome of the last action and gives the next one.
    pub fn step(&mut self, event: ApplyEvent) -> (a: ApplyAction)
        requires
            accepts(old(self).stage, event@),
        ensures
            final(self)@ == (ApplyMachineView { stage: apply_step(old(self)@, event@).0, ..old(self)@ }),
            a@ == apply_step(old(self)@, event@).1,
    {
        if let ApplyEvent::Failed(m) = event {
            return self.finish_err(AgentsError::Io(m));
        }
        match self.stage {
            ApplyStage::CreatingDir => {
                self.stage = ApplyStage::InspectingAgents;
                ApplyAction::Inspect(self.agents_path.duplicate())
            },
            ApplyStage::InspectingAgents => match event {
                ApplyEvent::Kind(EntryKind::Missing) => {
                    self.stage = ApplyStage::LinkingFresh;
                    ApplyAction::CreateSymlink { target: self.profile_path.duplicate(), link: self.agents_path.duplicate() }
                },
                ApplyEvent::Kind(EntryKind::Symlink) => {
                    self.stage = ApplyStage::ReadingLink;
                    ApplyAction::ReadLink(self.agents_path.duplicate())
                },
                ApplyEvent::Kind(EntryKind::File) => {
                    self.stage = ApplyStage::InspectingOld;
                    ApplyAction::Inspect(self.old_path.duplicate())
                },
                _ => self.finish_err(AgentsError::NotRegularFile),
            },
            ApplyStage::LinkingFresh => {
                self.stage = ApplyStage::Finished;
                ApplyAction::Finish(Ok(ApplyOutcome::Linked))
            },
            ApplyStage::ReadingLink => match event {
                ApplyEvent::Link(target) => match ensure_whitman_symlink(&self.agents_path, &target, &self.agents_dir, &self.cwd, self.platform) {
                    Ok(()) => {
                        self.stage = ApplyStage::RemovingLink;
                        ApplyAction::RemoveFile(self.agents_path.duplicate())
                    },
                    Err(e) => self.finish_err(e),
                },
                _ => self.finish_err(AgentsError::NotRegularFile),
            },
            ApplyStage::RemovingLink => {
                self.stage = ApplyStage::Relinking;
                ApplyAction::CreateSymlink { target: self.profile_path.duplicate(), link: self.agents_path.duplicate() }
            },
            ApplyStage::Relinking => {
                self.stage = ApplyStage::Finished;
                ApplyAction::Finish(Ok(ApplyOutcome::ReplacedWhitmanSymlink))
            },
            ApplyStage::InspectingOld => match event {
                ApplyEvent::Kind(EntryKind::Missing) => {
                    self.stage = ApplyStage::ReadingAgents;
                    ApplyAction::ReadFile(self.agents_path.duplicate())
                },
                ApplyEvent::Kind(k) => {
                    self.stage = ApplyStage::Confirming(k);
                    ApplyAction::Confirm(self.old_path.duplicate())
                },
                _ => self.finish_err(AgentsError::NotRegularFile),
            },
            ApplyStage::Confirming(k) => match event {
                ApplyEvent::Answer(false) => {
                    let p = self.old_path.duplicate();
                    self.finish_err(AgentsError::Cancelled(p))
                },
                _ => if k == EntryKind::File || k == EntryKind::Symlink {
                    self.stage = ApplyStage::RemovingOld;
                    ApplyAction::RemoveFile(self.old_path.duplicate())
                } else {
                    let p = self.old_path.duplicate();
                    self.finish_err(AgentsError::OldProfileNotFile(p))
                },
            },
            ApplyStage::RemovingOld => {
                self.stage = ApplyStage::ReadingAgents;
                ApplyAction::ReadFile(self.agents_path.duplicate())
            },
            ApplyStage::ReadingAgents => match event {
                ApplyEvent::Bytes(b) => {
                    self.stage = ApplyStage::WritingOld;
                    ApplyAction::WriteBytes(self.old_path.duplicate(), converted_contents(b.as_slice()))
                },
                _ => self.finish_err(AgentsError::NotRegularFile),
            },
            ApplyStage::WritingOld => {
                self.stage = ApplyStage::ReadingDescriptions;
                ApplyAction::ReadDescriptions(self.agents_dir.duplicate())
            },
            ApplyStage::ReadingDescriptions => match event {
                ApplyEvent::Descriptions(d) => match write_profile_description(d, "old", "Converted from AGENTS.md") {
                    Ok(text) => {
                        self.stage = ApplyStage::WritingDescriptions;
                        ApplyAction::WriteText(descriptions_path(&self.agents_dir), text)
                    },
                    Err(e) => self.finish_err(AgentsError::Description(e)),
                },
                _ => self.finish_err(AgentsError::NotRegularFile),
            },
            ApplyStage::WritingDescriptions => {
                self.stage = ApplyStage::RemovingAgents;
                ApplyAction::RemoveFile(self.agents_path.duplicate())
            },
            ApplyStage::RemovingAgents => {
                self.stage = ApplyStage::LinkingConverted;
                ApplyAction::CreateSymlink { target: self.profile_path.duplicate(), link: self.agents_path.duplicate() }
            },
            ApplyStage::LinkingConverted => {
                self.stage = ApplyStage::Finished;
                ApplyAction::Finish(Ok(ApplyOutcome::ConvertedExistingFile { old_profile_path: self.old_path.duplicate() }))
            },
            ApplyStage::Finished => self.finish_err(AgentsError::NotRegularFile),
        }
    }
}

/// The text kept from `AGENTS.md`, with a Whitman description comment put
/// before it.
pub fn converted_contents(existing: &[u8]) -> (r: Vec<u8>)
    ensures
        r@ == old_profile_header() + existing@,
{
    let mut out = header_bytes();
    let ghost h = out@;
    let mut i: usize = 0;
    while i < existing.len()
        invariant
            i <= existing@.len(),
            h == old_profile_header(),
            out@ == h + existing@.take(i as int),
        decreases existing@.len() - i,
    {
        out.push(existing[i]);
        i = i + 1;
        assert(out@ =~= h + existing@.take(i as int));
    }
    assert(existing@.take(existing@.len() as int) =~= existing@);
    out
}

/// `./AGENTS.md` is removed only after the checks allow it: when it is a
/// link into the profile directory, or after its text was kept as the old
/// profile and the old profile's description recorded.
pub proof fn law_agents_file_removed_only_when_safe(m: ApplyMachineView, event: ApplyEventView)
    requires
        accepts(m.stage, event),
        m.agents_path != m.old_path,
        apply_step(m, event).1 == ApplyActionView::RemoveFile(m.agents_path),
    ensures
        (m.stage == ApplyStage::ReadingLink && (event matches ApplyEventView::Link(t) && link_check(m.agents_path, t, m.agents_dir, m.cwd, m.platform) is Ok))
            || (m.stage == ApplyStage::WritingDescriptions && event is Done),
{
}

/// A link that points outside the profile directory is refused, and
/// nothing is removed or written.
pub proof fn law_outside_link_refused(m: ApplyMachineView, target: Seq<PartView>)
    requires
        m.stage == ApplyStage::ReadingLink,
        link_check(m.agents_path, target, m.agents_dir, m.cwd, m.platform) is Err,
    ensures
        apply_step(m, ApplyEventView::Link(target)).0 == ApplyStage::Finished,
        apply_step(m, ApplyEventView::Link(target)).1 == ApplyActionView::Finish(Err(link_check(m.agents_path, target, m.agents_dir, m.cwd, m.platform)->Err_0)),
{
}

/// An existing old profile is removed only after the user said yes.
pub proof fn law_old_profile_removed_only_after_yes(m: ApplyMachineView, event: ApplyEventView)
    requires
        accepts(m.stage, event),
        m.agents_path != m.old_path,
        apply_step(m, event).1 == ApplyActionView::RemoveFile(m.old_path),
    ensures
        m.stage is Confirming,
        event == ApplyEventView::Answer(true),
{
}

/// Declining to overwrite the old profile ends with `Cancelled` and touches
/// nothing.
pub proof fn law_no_means_cancelled(m: ApplyMachineView, k: EntryKind)
    requires
        m.stage == ApplyStage::Confirming(k),
    ensures
        apply_step(m, ApplyEventView::Answer(false)) == (ApplyStage::Finished, ApplyActionView::Finish(Err(AgentsErrorView::Cancelled(m.old_path)))),
{
}

/// Files are written only at the old profile path (the kept text, behind
/// the description comment) and at the descriptions file; links are made
/// only at `./AGENTS.md`, and only to the chosen profile.
pub proof fn law_writes_stay_in_place(m: ApplyMachineView, event: ApplyEventView)
    requires
        accepts(m.stage, event),
    ensures
        apply_step(m, event).1 matches ApplyActionView::WriteBytes(p, b) ==> p == m.old_path && (event matches ApplyEventView::Bytes(x) && b == old_profile_header() + x),
        apply_step(m, event).1 matches ApplyActionView::WriteText(p, _) ==> p == join_name(m.agents_dir, crate::profile::DESCRIPTIONS_FILE_NAME@),
        apply_step(m, event).1 matches ApplyActionView::CreateSymlink(target, link) ==> target == m.profile_path && link == m.agents_path,
{
}

/// Every failure of a file operation ends the run with that failure.
pub proof fn law_failure_ends_run(m: ApplyMachineView, msg: Seq<char>)
    requires
        m.stage != ApplyStage::Finished,
    ensures
        apply_step(m, ApplyEventView::Failed(msg)) == (ApplyStage::Finished, ApplyActionView::Finish(Err(AgentsErrorView::Io(msg)))),
{
}

/// The machine after one event.
pub open spec fn next_machine(m: ApplyMachineView, event: ApplyEventView) -> ApplyMachineView {
    ApplyMachineView { stage: apply_step(m, event).0, ..m }
}

/// The actions a machine asks for while it is handed `events` in turn, one
/// for each event, up to the first event it does not wait for.
pub open spec fn run_actions(m: ApplyMachineView, events: Seq<ApplyEventView>) -> Seq<ApplyActionView>
    decreases events.len(),
{
    if events.len() == 0 || !accepts(m.stage, events[0]) {
        Seq::empty()
    } else {
        seq![apply_step(m, events[0]).1] + run_actions(next_machine(m, events[0]), events.drop_first())
    }
}

/// How many of `actions` ask the user a question.
pub open spec fn confirm_count(actions: Seq<ApplyActionView>) -> nat
    decreases actions.len(),
{
    if actions.len() == 0 {
        0
    } else {
        (if actions[0] is Confirm { 1nat } else { 0nat }) + confirm_count(actions.drop_first())
    }
}

/// The stages from which a question may still come.
pub open spec fn may_confirm(stage: ApplyStage) -> bool {
    stage == ApplyStage::CreatingDir || stage == ApplyStage::InspectingAgents || stage == ApplyStage::InspectingOld
}

proof fn lemma_run_unfold(m: ApplyMachineView, events: Seq<ApplyEventView>)
    requires
        events.len() > 0,
        accepts(m.stage, events[0]),
    ensures
        run_actions(m, events).len() == 1 + run_actions(next_machine(m, events[0]), events.drop_first()).len(),
        run_actions(m, events)[0] == apply_step(m, events[0]).1,
        forall|i: int| 0 < i < run_actions(m, events).len() ==> #[trigger] run_actions(m, events)[i] == run_actions(next_machine(m, events[0]), events.drop_first())[i - 1],
        confirm_count(run_actions(m, events)) == (if apply_step(m, events[0]).1 is Confirm { 1nat } else { 0nat }) + confirm_count(run_actions(next_machine(m, events[0]), events.drop_first())),
{
    let a = run_actions(m, events);
    let rest = run_actions(next_machine(m, events[0]), events.drop_first());
    assert(a == seq![apply_step(m, events[0]).1] + rest);
    assert(a.drop_first() =~= rest);
}

/// From a stage past the point of asking, no question comes any more.
proof fn lemma_no_confirm(m: ApplyMachineView, events: Seq<ApplyEventView>)
    requires
        !may_confirm(m.stage),
    ensures
        confirm_count(run_actions(m, events)) == 0,
        forall|i: int| 0 <= i < run_actions(m, events).len() ==> !(#[trigger] run_actions(m, events)[i] is Confirm),
    decreases events.len(),
{
    if events.len() > 0 && accepts(m.stage, events[0]) {
        lemma_run_unfold(m, events);
        lemma_no_confirm(next_machine(m, events[0]), events.drop_first());
    }
}

/// In a whole run, from the start: the user is asked at most once; the
/// question, about the old profile's path, comes only as the third action
/// and only when the directory was made, `AGENTS.md` was found to be a
/// regular file and something was found at the old profile's path; and it
/// does come then.
pub proof fn law_question_asked_at_most_once(m: ApplyMachineView, events: Seq<ApplyEventView>)
    requires
        m.stage == ApplyStage::CreatingDir,
    ensures
        confirm_count(run_actions(m, events)) <= 1,
        forall|i: int| 0 <= i < run_actions(m, events).len() && (#[trigger] run_actions(m, events)[i] is Confirm) ==> {
            &&& i == 2
            &&& run_actions(m, events)[i] == ApplyActionView::Confirm(m.old_path)
            &&& events[0] == ApplyEventView::Done
            &&& events[1] == ApplyEventView::Kind(EntryKind::File)
            &&& events[2] is Kind
            &&& events[2] != ApplyEventView::Kind(EntryKind::Missing)
        },
        (events.len() >= 3 && events[0] == ApplyEventView::Done && events[1] == ApplyEventView::Kind(EntryKind::File) && events[2] is Kind && events[2] != ApplyEventView::Kind(EntryKind::Missing)) ==> run_actions(m, events).len() >= 3 && run_actions(m, events)[2] == ApplyActionView::Confirm(m.old_path),
{
    let a0 = run_actions(m, events);
    if events.len() == 0 || !accepts(m.stage, events[0]) {
        return;
    }
    lemma_run_unfold(m, events);
    let m1 = next_machine(m, events[0]);
    let e1 = events.drop_first();
    if !may_confirm(m1.stage) {
        lemma_no_confirm(m1, e1);
        return;
    }
    assert(events[0] == ApplyEventView::Done);
    assert(m1.stage == ApplyStage::InspectingAgents);
    let a1 = run_actions(m1, e1);
    if e1.len() == 0 || !accepts(m1.stage, e1[0]) {
        return;
    }
    lemma_run_unfold(m1, e1);
    let m2 = next_machine(m1, e1[0]);
    let e2 = e1.drop_first();
    if !may_confirm(m2.stage) {
        lemma_no_confirm(m2, e2);
        assert forall|i: int| 0 <= i < a0.len() implies !(#[trigger] a0[i] is Confirm) by {
            if i > 1 {
                assert(a0[i] == a1[i - 1]);
            }
        }
        return;
    }
    assert(e1[0] == ApplyEventView::Kind(EntryKind::File));
    assert(m2.stage == ApplyStage::InspectingOld);
    let a2 = run_actions(m2, e2);
    if e2.len() == 0 || !accepts(m2.stage, e2[0]) {
        return;
    }
    lemma_run_unfold(m2, e2);
    let m3 = next_machine(m2, e2[0]);
    let e3 = e2.drop_first();
    assert(!may_confirm(m3.stage));
    lemma_no_confirm(m3, e3);
    assert(e2[0] == events[2]);
    assert(e1[0] == events[1]);
    assert forall|i: int| 0 <= i < a0.len() && (#[trigger] a0[i] is Confirm) implies i == 2 && a0[i] == ApplyActionView::Confirm(m.old_path) && events[2] is Kind && events[2] != ApplyEventView::Kind(EntryKind::Missing) by {
        if i > 0 {
            assert(a0[i] == a1[i - 1]);
            if i > 1 {
                assert(a1[i - 1] == a2[i - 2]);
            }
        }
    }
    assert(a0[2] == a1[1]);
    assert(a1[1] == a2[0]);
}

/// When the user is asked and answers no, or answering fails, the run ends
/// there: it only made the directory, looked at `AGENTS.md` and at the old
/// profile's path, and asked; nothing is removed or written.
pub proof fn law_refused_question_changes_nothing(m: ApplyMachineView, events: Seq<ApplyEventView>, k: EntryKind)
    requires
        m.stage == ApplyStage::CreatingDir,
        events.len() >= 4,
        events[0] == ApplyEventView::Done,
        events[1] == ApplyEventView::Kind(EntryKind::File),
        events[2] == ApplyEventView::Kind(k),
        k != EntryKind::Missing,
        events[3] == ApplyEventView::Answer(false) || events[3] is Failed,
    ensures
        run_actions(m, events) == seq![
            ApplyActionView::Inspect(m.agents_path),
            ApplyActionView::Inspect(m.old_path),
            ApplyActionView::Confirm(m.old_path),
            ApplyActionView::Finish(Err(match events[3] {
                ApplyEventView::Failed(msg) => AgentsErrorView::Io(msg),
                _ => AgentsErrorView::Cancelled(m.old_path),
            })),
        ],
{
    let e1 = events.drop_first();
    let e2 = e1.drop_first();
    let e3 = e2.drop_first();
    let e4 = e3.drop_first();
    let m1 = next_machine(m, events[0]);
    let m2 = next_machine(m1, e1[0]);
    let m3 = next_machine(m2, e2[0]);
    let m4 = next_machine(m3, e3[0]);
    assert(e1[0] == events[1]);
    assert(e2[0] == events[2]);
    assert(e3[0] == events[3]);
    assert(m4.stage == ApplyStage::Finished);
    assert(run_actions(m4, e4) =~= Seq::<ApplyActionView>::empty());
    lemma_run_unfold(m3, e3);
    lemma_run_unfold(m2, e2);
    lemma_run_unfold(m1, e1);
    lemma_run_unfold(m, events);
    assert(run_actions(m, events) =~= seq![
        ApplyActionView::Inspect(m.agents_path),
        ApplyActionView::Inspect(m.old_path),
        ApplyActionView::Confirm(m.old_path),
        ApplyActionView::Finish(Err(match events[3] {
            ApplyEventView::Failed(msg) => AgentsErrorView::Io(msg),
            _ => AgentsErrorView::Cancelled(m.old_path),
        })),
    ]);
}

/// No `.` or `..` component.
pub open spec fn has_no_dots(p: Seq<PartView>) -> bool {
    forall|i: int| 0 <= i < p.len() ==> !(#[trigger] p[i] is CurDir) && !(p[i] is ParentDir)
}

proof fn lemma_normalize_from_no_dots(acc: Seq<PartView>, parts: Seq<PartView>)
    requires
        has_no_dots(acc),
    ensures
        has_no_dots(normalize_from(acc, parts)),
    decreases parts.len(),
{
    if parts.len() > 0 {
        let next = push_part(acc, parts[0]);
        assert forall|i: int| 0 <= i < next.len() implies !(#[trigger] next[i] is CurDir) && !(next[i] is ParentDir) by {
            match parts[0] {
                PartView::RootDir => {
                    if i < prefix_of(acc).len() {
                        assert(next[i] == acc[i]);
                    }
                },
                PartView::Prefix(_) | PartView::RootedPrefix(_) => {},
                _ => {
                    if i < acc.len() {
                        assert(next[i] == acc[i]);
                    }
                },
            }
        }
        lemma_normalize_from_no_dots(next, parts.drop_first());
    }
}

/// A normalized path holds no `.` and no `..`.
pub proof fn law_normalized_has_no_dots(path: Seq<PartView>, cwd: Result<Seq<PartView>, Seq<char>>, platform: Platform)
    ensures
        normalized(path, cwd, platform) matches Ok(p) ==> has_no_dots(p),
{
    lemma_normalize_from_no_dots(Seq::empty(), path);
    if let Ok(c) = cwd {
        lemma_normalize_from_no_dots(Seq::empty(), c + path);
    }
}

} // verus!
