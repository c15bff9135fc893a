//! Repository-local profiles: `AGENTS.<name>.md` files under
//! `.whitman/agents`, described in `.whitman/agents/descriptions.toml`.

use vstd::prelude::*;
use crate::order::{lemma_lex_irreflexive, lemma_lex_transitive, chars_lt, lex_lt};
use crate::names::{check_name, check_name_chars, DescriptionError, NameError, MAX_DESCRIPTION_LEN_EXCLUSIVE};
use crate::descriptions::{law_render_then_parse, lemma_remove_key_get, lemma_remove_key_valid, lemma_sorted_insert_get, lemma_sorted_insert_valid, valid_table, entry_valid, parse_descriptions, parse_descriptions_file, remove_key, render, sorted_insert, table_get, DescriptionTable, DescriptionsFileError, DescriptionsFileErrorView, EntryView};
use crate::path::{file_name_of, join_name, FsPath, PartView};
use crate::text::{contains, contains_seq, occurs_at, lowercase, to_lowercase, chars_of, copy_range, ends_with, has_prefix, has_suffix, lines, split_lines, starts_with, string_from_chars, trim, trim_chars};

verus! {

broadcast use vstd::string::group_string_axioms;

/// Name of the file that holds the profile descriptions.
pub const DESCRIPTIONS_FILE_NAME: &'static str = "descriptions.toml";

/// A profile: its name, its description and the path of its file.
#[derive(Debug)]
pub struct Profile {
    pub name: String,
    pub description: String,
    pub path: FsPath,
}

/// The mathematical value of a [`Profile`].
pub struct ProfileView {
    pub name: Seq<char>,
    pub description: Seq<char>,
    pub path: Seq<PartView>,
}

impl View for Profile {
    type V = ProfileView;

    open spec fn view(&self) -> ProfileView {
        ProfileView { name: self.name@, description: self.description@, path: self.path@ }
    }
}

impl Profile {
    pub fn duplicate(&self) -> (r: Profile)
        ensures
            r@ == self@,
    {
        Profile {
            name: self.name.clone(),
            description: self.description.clone(),
            path: self.path.duplicate(),
        }
    }
}

/// Why a profile operation failed.
#[derive(Debug)]
pub enum ProfileError {
    Name(NameError),
    Description(DescriptionError),
    /// The path does not end in a file name.
    NoFileName,
    /// The file name is not `AGENTS.<name>.md`.
    FileNamePattern(String),
    /// The file name holds an invalid profile name.
    InvalidProfileFile(NameError),
    /// The descriptions file could not be parsed.
    Descriptions(DescriptionsFileError),
    /// Reading or writing a file failed; the message says why.
    Io(String),
    MissingDescription(String),
    InvalidProfileDescription(DescriptionError),
    ProfileExists,
    DescriptionExists(String),
}

pub enum ProfileErrorView {
    Name(NameError),
    Description(DescriptionError),
    NoFileName,
    FileNamePattern(Seq<char>),
    InvalidProfileFile(NameError),
    Descriptions(DescriptionsFileErrorView),
    Io(Seq<char>),
    MissingDescription(Seq<char>),
    InvalidProfileDescription(DescriptionError),
    ProfileExists,
    DescriptionExists(Seq<char>),
}

impl View for ProfileError {
    type V = ProfileErrorView;

    open spec fn view(&self) -> ProfileErrorView {
        match self {
            ProfileError::Name(e) => ProfileErrorView::Name(*e),
            ProfileError::Description(e) => ProfileErrorView::Description(*e),
            ProfileError::NoFileName => ProfileErrorView::NoFileName,
            ProfileError::FileNamePattern(s) => ProfileErrorView::FileNamePattern(s@),
            ProfileError::InvalidProfileFile(e) => ProfileErrorView::InvalidProfileFile(*e),
            ProfileError::Descriptions(e) => ProfileErrorView::Descriptions(e@),
            ProfileError::Io(s) => ProfileErrorView::Io(s@),
            ProfileError::MissingDescription(s) => ProfileErrorView::MissingDescription(s@),
            ProfileError::InvalidProfileDescription(e) => ProfileErrorView::InvalidProfileDescription(
                *e,
            ),
            ProfileError::ProfileExists => ProfileErrorView::ProfileExists,
            ProfileError::DescriptionExists(s) => ProfileErrorView::DescriptionExists(s@),
        }
    }
}

impl ProfileErrorView {
    pub open spec fn spec_message(self) -> Seq<char> {
        match self {
            ProfileErrorView::Name(e) => e.spec_message(),
            ProfileErrorView::Description(e) => e.spec_message(),
            ProfileErrorView::NoFileName => "profile path has no valid UTF-8 file name"@,
            ProfileErrorView::FileNamePattern(f) =>
                "profile file name must match AGENTS.<name>.md: "@ + f,
            ProfileErrorView::InvalidProfileFile(e) => "invalid profile file: "@ + e.spec_message(),
            ProfileErrorView::Descriptions(e) => "invalid descriptions.toml: "@ + e.spec_message(),
            ProfileErrorView::Io(m) => m,
            ProfileErrorView::MissingDescription(name) => "missing profile description for '"@
                + name + "' in descriptions.toml"@,
            ProfileErrorView::InvalidProfileDescription(e) =>
                "invalid profile description in descriptions.toml: "@ + e.spec_message(),
            ProfileErrorView::ProfileExists => "profile already exists"@,
            ProfileErrorView::DescriptionExists(name) =>
                "profile description already exists for "@ + name,
        }
    }
}

impl ProfileError {
    pub fn duplicate(&self) -> (r: ProfileError)
        ensures
            r@ == self@,
    {
        match self {
            ProfileError::Name(e) => ProfileError::Name(*e),
            ProfileError::Description(e) => ProfileError::Description(*e),
            ProfileError::NoFileName => ProfileError::NoFileName,
            ProfileError::FileNamePattern(s) => ProfileError::FileNamePattern(s.clone()),
            ProfileError::InvalidProfileFile(e) => ProfileError::InvalidProfileFile(*e),
            ProfileError::Descriptions(e) => ProfileError::Descriptions(e.duplicate()),
            ProfileError::Io(s) => ProfileError::Io(s.clone()),
            ProfileError::MissingDescription(s) => ProfileError::MissingDescription(s.clone()),
            ProfileError::InvalidProfileDescription(e) => ProfileError::InvalidProfileDescription(*e),
            ProfileError::ProfileExists => ProfileError::ProfileExists,
            ProfileError::DescriptionExists(s) => ProfileError::DescriptionExists(s.clone()),
        }
    }

    /// The text the error is shown with.
    pub fn message(&self) -> (r: String)
        ensures
            r@ == self@.spec_message(),
    {
        match self {
            ProfileError::Name(e) => e.message(),
            ProfileError::Description(e) => e.message(),
            ProfileError::NoFileName => String::from_str("profile path has no valid UTF-8 file name"),
            ProfileError::FileNamePattern(f) => {
                let s = String::from_str("profile file name must match AGENTS.<name>.md: ");
                s.concat(f.as_str())
            },
            ProfileError::InvalidProfileFile(e) => {
                let s = String::from_str("invalid profile file: ");
                s.concat(e.message().as_str())
            },
            ProfileError::Descriptions(e) => {
                let s = String::from_str("invalid descriptions.toml: ");
                s.concat(e.message().as_str())
            },
            ProfileError::Io(m) => m.clone(),
            ProfileError::MissingDescription(name) => {
                let s = String::from_str("missing profile description for '");
                let s = s.concat(name.as_str());
                s.concat("' in descriptions.toml")
            },
            ProfileError::InvalidProfileDescription(e) => {
                let s = String::from_str("invalid profile description in descriptions.toml: ");
                s.concat(e.message().as_str())
            },
            ProfileError::ProfileExists => String::from_str("profile already exists"),
            ProfileError::DescriptionExists(name) => {
                let s = String::from_str("profile description already exists for ");
                s.concat(name.as_str())
            },
        }
    }
}

/// Checks that `name` can name a profile.
pub fn validate_profile_name(name: &str) -> (r: Result<(), NameError>)
    ensures
        r == check_name(name@),
{
    let chars = chars_of(name);
    check_name_chars(chars.as_slice())
}

/// What `parse_description` gives for `contents`: the trimmed text, if it is
/// non-empty, a single line and under the length limit.
pub open spec fn description_of(contents: Seq<char>) -> Result<Seq<char>, DescriptionError> {
    let d = trim(contents);
    if d.len() == 0 {
        Err(DescriptionError::Empty)
    } else if lines(d).len() > 1 {
        Err(DescriptionError::MultipleLines)
    } else if d.len() >= MAX_DESCRIPTION_LEN_EXCLUSIVE {
        Err(DescriptionError::TooLong)
    } else {
        Ok(d)
    }
}

/// A description is accepted exactly when, without surrounding white
/// space, it is not empty, has fewer than 100 characters and holds no line
/// break; what is kept is that trimmed text.
pub proof fn law_description_rules(contents: Seq<char>)
    ensures
        description_of(contents) is Ok <==> {
            &&& 0 < trim(contents).len() < 100
            &&& forall|i: int| 0 <= i < trim(contents).len() ==> trim(contents)[i] != '\n'
        },
        description_of(contents) matches Ok(d) ==> d == trim(contents),
{
    let d = trim(contents);
    crate::text::lemma_trim_shape(contents);
    if d.len() > 0 {
        if forall|i: int| 0 <= i < d.len() ==> d[i] != '\n' {
            crate::text::lemma_line_len(d, d.len() as int);
            assert(lines(d) == seq![d]);
        } else {
            let i = choose|i: int| 0 <= i < d.len() && d[i] == '\n';
            assert(crate::text::is_white_space(d[i]));
            assert(i != d.len() - 1);
            crate::text::lemma_inner_newline_lines(d, i);
        }
    }
}

/// Checks a description and returns it without surrounding white space.
pub fn parse_description(contents: &str) -> (r: Result<String, DescriptionError>)
    ensures
        r matches Ok(d) ==> description_of(contents@) == Ok::<Seq<char>, DescriptionError>(d@),
        r matches Err(e) ==> description_of(contents@) == Err::<Seq<char>, DescriptionError>(e),
{
    let chars = chars_of(contents);
    let d = trim_chars(chars.as_slice());
    if d.len() == 0 {
        return Err(DescriptionError::Empty);
    }
    let ls = split_lines(d.as_slice());
    if ls.len() > 1 {
        return Err(DescriptionError::MultipleLines);
    }
    if d.len() >= MAX_DESCRIPTION_LEN_EXCLUSIVE {
        return Err(DescriptionError::TooLong);
    }
    Ok(string_from_chars(d.as_slice()))
}

/// Checks a description typed by the user; the same rules as
/// [`parse_description`].
pub fn validate_profile_description(line: &str) -> (r: Result<String, DescriptionError>)
    ensures
        r matches Ok(d) ==> description_of(line@) == Ok::<Seq<char>, DescriptionError>(d@),
        r matches Err(e) ==> description_of(line@) == Err::<Seq<char>, DescriptionError>(e),
{
    parse_description(line)
}

/// The file name of the profile called `name`.
pub open spec fn profile_file_name_of(name: Seq<char>) -> Seq<char> {
    "AGENTS."@ + name + ".md"@
}

/// `AGENTS.<name>.md`, for a valid `name`.
pub fn profile_file_name(name: &str) -> (r: Result<String, NameError>)
    ensures
        r matches Ok(f) ==> check_name(name@) is Ok && f@ == profile_file_name_of(name@),
        r matches Err(e) ==> check_name(name@) == Err::<(), NameError>(e),
{
    validate_profile_name(name)?;
    let s = String::from_str("AGENTS.");
    let s = s.concat(name);
    Ok(s.concat(".md"))
}

/// `f` has the form `AGENTS.<…>.md`: it starts with `AGENTS.`, ends with
/// `.md`, and the two do not overlap (so `AGENTS.md` has not this form).
pub open spec fn has_profile_pattern(f: Seq<char>) -> bool {
    &&& has_prefix(f, "AGENTS."@)
    &&& has_suffix(f, ".md"@)
    &&& f.len() >= "AGENTS."@.len() + ".md"@.len()
}

/// The part of `AGENTS.<name>.md` between prefix and suffix.
pub open spec fn name_in_file_name(f: Seq<char>) -> Seq<char> {
    f.subrange("AGENTS."@.len() as int, f.len() - ".md"@.len())
}

/// What `profile_name_from_path` gives for `path`.
pub open spec fn profile_name_of(path: Seq<PartView>) -> Result<Seq<char>, ProfileErrorView> {
    match file_name_of(path) {
        None => Err(ProfileErrorView::NoFileName),
        Some(f) => if has_profile_pattern(f) {
            Ok(name_in_file_name(f))
        } else {
            Err(ProfileErrorView::FileNamePattern(f))
        },
    }
}

/// Splits a file name into the profile name it holds, if it has the
/// `AGENTS.<name>.md` form.
fn name_from_file_name(f: &[char]) -> (r: Option<Vec<char>>)
    ensures
        r matches Some(n) ==> has_profile_pattern(f@) && n@ == name_in_file_name(f@),
        r is None ==> !has_profile_pattern(f@),
{
    let prefix = chars_of("AGENTS.");
    let suffix = chars_of(".md");
    proof {
        reveal_strlit("AGENTS.");
        reveal_strlit(".md");
    }
    if f.len() < 10 || !starts_with(f, prefix.as_slice()) || !ends_with(f, suffix.as_slice()) {
        return None;
    }
    Some(copy_range(f, 7, f.len() - 3))
}

/// The profile name that the file name of `path` holds; a file name not of
/// the form `AGENTS.<name>.md`, `AGENTS.md` among them, is refused.
pub fn profile_name_from_path(path: &FsPath) -> (r: Result<String, ProfileError>)
    ensures
        r matches Ok(n) ==> profile_name_of(path@) == Ok::<Seq<char>, ProfileErrorView>(n@),
        r matches Err(e) ==> profile_name_of(path@) == Err::<Seq<char>, ProfileErrorView>(e@),
{
    let file_name = match path.file_name() {
        None => return Err(ProfileError::NoFileName),
        Some(f) => f,
    };
    let f = chars_of(file_name.as_str());
    match name_from_file_name(f.as_slice()) {
        Some(n) => Ok(string_from_chars(n.as_slice())),
        None => Err(ProfileError::FileNamePattern(file_name)),
    }
}

/// `path` ends in a file name of the form `AGENTS.<…>.md`.
pub fn is_profile_file_name(path: &FsPath) -> (r: bool)
    ensures
        r == (file_name_of(path@) matches Some(f) && has_profile_pattern(f)),
{
    match path.file_name() {
        None => false,
        Some(f) => {
            let f = chars_of(f.as_str());
            let prefix = chars_of("AGENTS.");
            let suffix = chars_of(".md");
            proof {
                reveal_strlit("AGENTS.");
                reveal_strlit(".md");
            }
            f.len() >= 10 && starts_with(f.as_slice(), prefix.as_slice()) && ends_with(f.as_slice(), suffix.as_slice())
        },
    }
}

/// Where a file that `AGENTS.md` held is kept: `AGENTS.old.md` in the
/// profile directory.
pub fn old_profile_path(agents_dir: &FsPath) -> (r: FsPath)
    ensures
        r@ == join_name(agents_dir@, "AGENTS.old.md"@),
{
    agents_dir.join_name("AGENTS.old.md")
}

/// The descriptions file of the profile directory.
pub fn descriptions_path(agents_dir: &FsPath) -> (r: FsPath)
    ensures
        r@ == join_name(agents_dir@, DESCRIPTIONS_FILE_NAME@),
{
    agents_dir.join_name(DESCRIPTIONS_FILE_NAME)
}

/// One directory on the way from the working directory up to the file
/// system root, and whether it holds `.whitman` and `.git`.
#[derive(Debug)]
pub struct Ancestor {
    pub path: FsPath,
    pub has_whitman_dir: bool,
    pub has_git_dir: bool,
}

pub struct AncestorView {
    pub path: Seq<PartView>,
    pub has_whitman_dir: bool,
    pub has_git_dir: bool,
}

impl View for Ancestor {
    type V = AncestorView;

    open spec fn view(&self) -> AncestorView {
        AncestorView {
            path: self.path@,
            has_whitman_dir: self.has_whitman_dir,
            has_git_dir: self.has_git_dir,
        }
    }
}

/// The views of the ancestors, nearest first.
pub open spec fn ancestor_views(a: Seq<Ancestor>) -> Seq<AncestorView> {
    a.map_values(|x: Ancestor| x@)
}

/// `i` is the nearest ancestor that holds `.whitman` (when `whitman`) or
/// `.git` (otherwise).
pub open spec fn is_nearest_marked(a: Seq<AncestorView>, i: int, whitman: bool) -> bool {
    &&& 0 <= i < a.len()
    &&& (if whitman { a[i].has_whitman_dir } else { a[i].has_git_dir })
    &&& forall|k: int| 0 <= k < i ==> !(if whitman { a[k].has_whitman_dir } else { a[k].has_git_dir })
}

pub open spec fn has_marked(a: Seq<AncestorView>, whitman: bool) -> bool {
    exists|i: int| 0 <= i < a.len() && (if whitman { a[i].has_whitman_dir } else { a[i].has_git_dir })
}

/// The root that `whitman_root` picks: the nearest ancestor holding
/// `.whitman`, else the nearest holding `.git`.
pub open spec fn picks_root(a: Seq<AncestorView>, root: Option<Seq<PartView>>) -> bool {
    match root {
        Some(p) => if has_marked(a, true) {
            exists|i: int| is_nearest_marked(a, i, true) && a[i].path == p
        } else {
            has_marked(a, false) && exists|i: int| is_nearest_marked(a, i, false) && a[i].path == p
        },
        None => !has_marked(a, true) && !has_marked(a, false),
    }
}

fn nearest_marked(ancestors: &Vec<Ancestor>, whitman: bool) -> (r: Option<usize>)
    ensures
        r matches Some(i) ==> is_nearest_marked(ancestor_views(ancestors@), i as int, whitman),
        r is None ==> !has_marked(ancestor_views(ancestors@), whitman),
{
    let ghost a = ancestor_views(ancestors@);
    let mut i: usize = 0;
    while i < ancestors.len()
        invariant
            i <= ancestors@.len(),
            a == ancestor_views(ancestors@),
            forall|k: int| 0 <= k < i ==> !(if whitman { a[k].has_whitman_dir } else { a[k].has_git_dir }),
        decreases ancestors@.len() - i,
    {
        let marked = if whitman { ancestors[i].has_whitman_dir } else { ancestors[i].has_git_dir };
        assert(a[i as int] == ancestors@[i as int]@);
        if marked {
            return Some(i);
        }
        i = i + 1;
    }
    None
}

/// The directory where Whitman is initialized: the nearest ancestor that
/// holds `.whitman`, else the nearest that holds `.git`. `ancestors` lists
/// the working directory and its ancestors, nearest first.
pub fn whitman_root(ancestors: &Vec<Ancestor>) -> (r: Option<FsPath>)
    ensures
        picks_root(ancestor_views(ancestors@), match r {
            Some(p) => Some(p@),
            None => None,
        }),
{
    let ghost a = ancestor_views(ancestors@);
    match nearest_marked(ancestors, true) {
        Some(i) => {
            assert(a[i as int] == ancestors@[i as int]@);
            Some(ancestors[i].path.duplicate())
        },
        None => match nearest_marked(ancestors, false) {
            Some(i) => {
                assert(a[i as int] == ancestors@[i as int]@);
                Some(ancestors[i].path.duplicate())
            },
            None => None,
        },
    }
}

/// The profile directory: `.whitman/agents` under the root that
/// [`whitman_root`] picks, or under `work_dir` when there is none.
pub fn repository_agents_dir(work_dir: &FsPath, ancestors: &Vec<Ancestor>) -> (r: FsPath)
    ensures
        exists|root: Option<Seq<PartView>>| #![auto]
            picks_root(ancestor_views(ancestors@), root) && r@ == join_name(
                join_name(
                    match root {
                        Some(p) => p,
                        None => work_dir@,
                    },
                    ".whitman"@,
                ),
                "agents"@,
            ),
{
    let base = match whitman_root(ancestors) {
        Some(p) => p,
        None => work_dir.duplicate(),
    };
    base.join_name(".whitman").join_name("agents")
}

/// The outcome of reading the descriptions file, taken by its views.
pub open spec fn read_view(r: Result<DescriptionTable, ProfileError>) -> Result<Seq<EntryView>, ProfileErrorView> {
    match r {
        Ok(t) => Ok(t@),
        Err(e) => Err(e@),
    }
}

/// The table read from the descriptions file: empty when there is no file
/// (`None`), else the parsed contents.
pub fn descriptions_from_file(contents: Option<&str>) -> (r: Result<DescriptionTable, ProfileError>)
    ensures
        contents is None ==> (r matches Ok(t) && t@ == Seq::<EntryView>::empty()),
        contents matches Some(c) ==> read_view(r) == match parse_descriptions(c@) {
            Ok(t) => Ok::<Seq<EntryView>, ProfileErrorView>(t),
            Err(e) => Err(ProfileErrorView::Descriptions(e)),
        },
{
    match contents {
        None => Ok(DescriptionTable::new()),
        Some(c) => match parse_descriptions_file(c) {
            Ok(t) => Ok(t),
            Err(e) => Err(ProfileError::Descriptions(e)),
        },
    }
}

/// What `parse_profile_file` gives for a file at `path`, given what reading
/// the descriptions file gave.
pub open spec fn profile_of(path: Seq<PartView>, descriptions: Result<Seq<EntryView>, ProfileErrorView>) -> Result<ProfileView, ProfileErrorView> {
    match profile_name_of(path) {
        Err(e) => Err(e),
        Ok(name) => match check_name(name) {
            Err(e) => Err(ProfileErrorView::InvalidProfileFile(e)),
            Ok(_) => match descriptions {
                Err(e) => Err(e),
                Ok(t) => match table_get(t, name) {
                    None => Err(ProfileErrorView::MissingDescription(name)),
                    Some(d) => match description_of(d) {
                        Err(e) => Err(ProfileErrorView::InvalidProfileDescription(e)),
                        Ok(d2) => Ok(ProfileView { name, description: d2, path }),
                    },
                },
            },
        },
    }
}

/// The profile whose file is at `path`: its name from the file name, its
/// description from the descriptions file, whose reading gave
/// `descriptions`.
pub fn parse_profile_file(path: &FsPath, descriptions: &Result<DescriptionTable, ProfileError>) -> (r: Result<Profile, ProfileError>)
    ensures
        r matches Ok(p) ==> profile_of(path@, read_view(*descriptions)) == Ok::<ProfileView, ProfileErrorView>(p@),
        r matches Err(e) ==> profile_of(path@, read_view(*descriptions)) == Err::<ProfileView, ProfileErrorView>(e@),
{
    let name = profile_name_from_path(path)?;
    let name_chars = chars_of(name.as_str());
    if let Err(e) = check_name_chars(name_chars.as_slice()) {
        return Err(ProfileError::InvalidProfileFile(e));
    }
    let table = match descriptions {
        Err(e) => return Err(e.duplicate()),
        Ok(t) => t,
    };
    let stored = match table.find(name_chars.as_slice()) {
        None => return Err(ProfileError::MissingDescription(name)),
        Some(i) => table.entry(i),
    };
    let description = match parse_description(stored.description.as_str()) {
        Err(e) => return Err(ProfileError::InvalidProfileDescription(e)),
        Ok(d) => d,
    };
    Ok(Profile { name, description, path: path.duplicate() })
}

/// What writing a description gives: the new contents of the descriptions
/// file.
pub open spec fn written_description(descriptions: Result<Seq<EntryView>, ProfileErrorView>, name: Seq<char>, description: Seq<char>) -> Result<Seq<char>, ProfileErrorView> {
    match check_name(name) {
        Err(e) => Err(ProfileErrorView::Name(e)),
        Ok(_) => match descriptions {
            Err(e) => Err(e),
            Ok(t) => match description_of(description) {
                Err(e) => Err(ProfileErrorView::Description(e)),
                Ok(d) => Ok(render(sorted_insert(t, name, d))),
            },
        },
    }
}

/// Records `description` for the profile `name`: the new contents of the
/// descriptions file, given what reading it gave.
pub fn write_profile_description(descriptions: Result<DescriptionTable, ProfileError>, name: &str, description: &str) -> (r: Result<String, ProfileError>)
    ensures
        r matches Ok(c) ==> written_description(read_view(descriptions), name@, description@) == Ok::<Seq<char>, ProfileErrorView>(c@),
        r matches Err(e) ==> written_description(read_view(descriptions), name@, description@) == Err::<Seq<char>, ProfileErrorView>(e@),
{
    if let Err(e) = validate_profile_name(name) {
        return Err(ProfileError::Name(e));
    }
    let table = descriptions?;
    let d = match parse_description(description) {
        Err(e) => return Err(ProfileError::Description(e)),
        Ok(d) => d,
    };
    proof {
        crate::text::lemma_trim_idempotent(description@);
    }
    let table = table.insert(String::from_str(name), d);
    Ok(table.render())
}

/// What removing a description gives: the new contents of the descriptions
/// file.
pub open spec fn removed_description(descriptions: Result<Seq<EntryView>, ProfileErrorView>, name: Seq<char>) -> Result<Seq<char>, ProfileErrorView> {
    match check_name(name) {
        Err(e) => Err(ProfileErrorView::Name(e)),
        Ok(_) => match descriptions {
            Err(e) => Err(e),
            Ok(t) => Ok(render(remove_key(t, name))),
        },
    }
}

/// Drops the description of the profile `name`: the new contents of the
/// descriptions file, given what reading it gave.
pub fn remove_profile_description(descriptions: Result<DescriptionTable, ProfileError>, name: &str) -> (r: Result<String, ProfileError>)
    ensures
        r matches Ok(c) ==> removed_description(read_view(descriptions), name@) == Ok::<Seq<char>, ProfileErrorView>(c@),
        r matches Err(e) ==> removed_description(read_view(descriptions), name@) == Err::<Seq<char>, ProfileErrorView>(e@),
{
    if let Err(e) = validate_profile_name(name) {
        return Err(ProfileError::Name(e));
    }
    let table = descriptions?;
    let key = chars_of(name);
    let table = table.remove(key.as_slice());
    Ok(table.render())
}

/// Whether the descriptions file, whose reading gave `descriptions`, holds
/// a description for the profile `name`.
pub fn profile_description_exists(descriptions: &Result<DescriptionTable, ProfileError>, name: &str) -> (r: Result<bool, ProfileError>)
    ensures
        r matches Ok(b) ==> check_name(name@) is Ok && (read_view(*descriptions) matches Ok(t) && b == (table_get(t, name@) is Some)),
        r matches Err(e) ==> match check_name(name@) {
            Err(n) => e@ == ProfileErrorView::Name(n),
            Ok(_) => read_view(*descriptions) == Err::<Seq<EntryView>, ProfileErrorView>(e@),
        },
{
    if let Err(e) = validate_profile_name(name) {
        return Err(ProfileError::Name(e));
    }
    match descriptions {
        Err(e) => Err(e.duplicate()),
        Ok(t) => {
            let key = chars_of(name);
            Ok(t.find(key.as_slice()).is_some())
        },
    }
}

/// A directory entry: its path and whether it is a regular file.
#[derive(Debug)]
pub struct DirectoryEntry {
    pub path: FsPath,
    pub is_file: bool,
}

pub struct DirectoryEntryView {
    pub path: Seq<PartView>,
    pub is_file: bool,
}

impl View for DirectoryEntry {
    type V = DirectoryEntryView;

    open spec fn view(&self) -> DirectoryEntryView {
        DirectoryEntryView { path: self.path@, is_file: self.is_file }
    }
}

pub open spec fn entry_views(es: Seq<DirectoryEntry>) -> Seq<DirectoryEntryView> {
    es.map_values(|e: DirectoryEntry| e@)
}

pub open spec fn profile_views(ps: Seq<Profile>) -> Seq<ProfileView> {
    ps.map_values(|p: Profile| p@)
}

/// A regular file whose name has the `AGENTS.<…>.md` form.
pub open spec fn is_candidate(e: DirectoryEntryView) -> bool {
    e.is_file && (file_name_of(e.path) matches Some(f) && has_profile_pattern(f))
}

/// The profiles of the candidate entries, in directory order; the first
/// failure ends the scan.
pub open spec fn collect_profiles(es: Seq<DirectoryEntryView>, descriptions: Result<Seq<EntryView>, ProfileErrorView>) -> Result<Seq<ProfileView>, ProfileErrorView>
    decreases es.len(),
{
    if es.len() == 0 {
        Ok(Seq::empty())
    } else if !is_candidate(es[0]) {
        collect_profiles(es.drop_first(), descriptions)
    } else {
        match profile_of(es[0].path, descriptions) {
            Err(e) => Err(e),
            Ok(p) => match collect_profiles(es.drop_first(), descriptions) {
                Ok(ps) => Ok(seq![p] + ps),
                Err(e) => Err(e),
            },
        }
    }
}

/// Listing succeeds exactly when every regular file of the
/// `AGENTS.<name>.md` form is a valid profile; it then holds the profiles
/// of those files, in directory order, and nothing else.
pub proof fn law_listing_takes_every_profile_file(es: Seq<DirectoryEntryView>, d: Result<Seq<EntryView>, ProfileErrorView>)
    ensures
        collect_profiles(es, d) is Ok <==> forall|i: int| 0 <= i < es.len() && is_candidate(#[trigger] es[i]) ==> profile_of(es[i].path, d) is Ok,
        collect_profiles(es, d) matches Ok(ps) ==> ps == es.filter(|e: DirectoryEntryView| is_candidate(e)).map_values(|e: DirectoryEntryView| profile_of(e.path, d)->Ok_0),
    decreases es.len(),
{
    let pred = |e: DirectoryEntryView| is_candidate(e);
    let f = |e: DirectoryEntryView| profile_of(e.path, d)->Ok_0;
    if es.len() > 0 {
        let rest = es.drop_first();
        law_listing_takes_every_profile_file(rest, d);
        assert forall|i: int| 0 < i < es.len() implies es[i] == rest[i - 1] by {}
        let one = seq![es[0]];
        assert(es =~= one + rest);
        Seq::filter_distributes_over_add(one, rest, pred);
        reveal_with_fuel(Seq::<DirectoryEntryView>::filter, 2);
        assert(one.drop_last() =~= Seq::<DirectoryEntryView>::empty());
        assert(one.drop_last().filter(pred) =~= Seq::<DirectoryEntryView>::empty());
        assert(one.last() == es[0]);
        if is_candidate(es[0]) {
            assert(one.filter(pred) =~= one);
            let fr = rest.filter(pred);
            assert((one + fr).map_values(f) =~= seq![f(es[0])] + fr.map_values(f));
        } else {
            assert(one.filter(pred) =~= Seq::<DirectoryEntryView>::empty());
            assert(Seq::<DirectoryEntryView>::empty() + rest.filter(pred) =~= rest.filter(pred));
        }
        if forall|i: int| 0 <= i < rest.len() && is_candidate(#[trigger] rest[i]) ==> profile_of(rest[i].path, d) is Ok {
            assert forall|i: int| 0 <= i < es.len() && is_candidate(#[trigger] es[i]) && i > 0 implies profile_of(es[i].path, d) is Ok by {
                assert(es[i] == rest[i - 1]);
            }
        } else {
            let k = choose|i: int| 0 <= i < rest.len() && is_candidate(#[trigger] rest[i]) && !(profile_of(rest[i].path, d) is Ok);
            assert(es[k + 1] == rest[k]);
        }
    }
}

/// `p` put before the first profile whose name sorts after its own.
pub open spec fn insert_by_name(s: Seq<ProfileView>, p: ProfileView) -> Seq<ProfileView>
    decreases s.len(),
{
    if s.len() == 0 {
        seq![p]
    } else if lex_lt(p.name, s[0].name) {
        seq![p] + s
    } else {
        seq![s[0]] + insert_by_name(s.drop_first(), p)
    }
}

/// The profiles sorted by name, profiles of equal names in their given
/// order (a stable sort).
pub open spec fn sort_by_name(s: Seq<ProfileView>) -> Seq<ProfileView>
    decreases s.len(),
{
    if s.len() == 0 {
        s
    } else {
        insert_by_name(sort_by_name(s.drop_last()), s.last())
    }
}

/// No profile sorts before one that precedes it.
pub open spec fn sorted_by_name(s: Seq<ProfileView>) -> bool {
    forall|i: int, j: int| 0 <= i < j < s.len() ==> !lex_lt(#[trigger] s[j].name, #[trigger] s[i].name)
}

proof fn lemma_insert_by_name_at(s: Seq<ProfileView>, p: ProfileView, j: int)
    requires
        0 <= j <= s.len(),
        forall|k: int| 0 <= k < j ==> !lex_lt(p.name, #[trigger] s[k].name),
        j < s.len() ==> lex_lt(p.name, s[j].name),
    ensures
        insert_by_name(s, p) == s.take(j) + seq![p] + s.skip(j),
    decreases j,
{
    if j == 0 {
        assert(s.take(0) + seq![p] + s.skip(0) =~= seq![p] + s);
        if s.len() == 0 {
            assert(seq![p] + s =~= seq![p]);
        }
    } else {
        let t = s.drop_first();
        assert forall|k: int| 0 <= k < j - 1 implies !lex_lt(p.name, #[trigger] t[k].name) by {
            assert(t[k] == s[k + 1]);
        }
        lemma_insert_by_name_at(t, p, j - 1);
        assert(s.take(j) =~= seq![s[0]] + t.take(j - 1));
        assert(s.skip(j) =~= t.skip(j - 1));
        assert(seq![s[0]] + (t.take(j - 1) + seq![p] + t.skip(j - 1)) =~= s.take(j) + seq![p] + s.skip(j));
    }
}

proof fn lemma_insert_by_name_sorted(s: Seq<ProfileView>, p: ProfileView)
    requires
        sorted_by_name(s),
    ensures
        sorted_by_name(insert_by_name(s, p)),
    decreases s.len(),
{
    let r = insert_by_name(s, p);
    if s.len() == 0 {
    } else if lex_lt(p.name, s[0].name) {
        assert forall|i: int, j: int| 0 <= i < j < r.len() implies !lex_lt(#[trigger] r[j].name, #[trigger] r[i].name) by {
            if i == 0 {
                if lex_lt(s[j - 1].name, p.name) {
                    lemma_lex_transitive(s[j - 1].name, p.name, s[0].name);
                    if j - 1 == 0 {
                        lemma_lex_irreflexive(s[0].name);
                    }
                }
            } else {
                assert(r[i] == s[i - 1] && r[j] == s[j - 1]);
            }
        }
    } else {
        let t = s.drop_first();
        assert forall|i: int, j: int| 0 <= i < j < t.len() implies !lex_lt(#[trigger] t[j].name, #[trigger] t[i].name) by {
            assert(t[i] == s[i + 1] && t[j] == s[j + 1]);
        }
        lemma_insert_by_name_sorted(t, p);
        lemma_insert_by_name_members(t, p);
        let u = insert_by_name(t, p);
        assert forall|i: int, j: int| 0 <= i < j < r.len() implies !lex_lt(#[trigger] r[j].name, #[trigger] r[i].name) by {
            if i == 0 {
                assert(r[j] == u[j - 1]);
                if u[j - 1] != p {
                    let m = choose|m: int| 0 <= m < t.len() && t[m] == u[j - 1];
                    assert(s[m + 1] == t[m]);
                }
            } else {
                assert(r[i] == u[i - 1] && r[j] == u[j - 1]);
            }
        }
    }
}

proof fn lemma_insert_by_name_members(s: Seq<ProfileView>, p: ProfileView)
    ensures
        forall|i: int| 0 <= i < insert_by_name(s, p).len() ==> insert_by_name(s, p)[i] == p || exists|m: int| 0 <= m < s.len() && s[m] == #[trigger] insert_by_name(s, p)[i],
    decreases s.len(),
{
    let r = insert_by_name(s, p);
    if s.len() == 0 {
    } else if lex_lt(p.name, s[0].name) {
        assert forall|i: int| 0 <= i < r.len() implies r[i] == p || exists|m: int| 0 <= m < s.len() && s[m] == #[trigger] r[i] by {
            if i > 0 {
                assert(s[i - 1] == r[i]);
            }
        }
    } else {
        let t = s.drop_first();
        lemma_insert_by_name_members(t, p);
        let u = insert_by_name(t, p);
        assert forall|i: int| 0 <= i < r.len() implies r[i] == p || exists|m: int| 0 <= m < s.len() && s[m] == #[trigger] r[i] by {
            if i == 0 {
                assert(s[0] == r[0]);
            } else {
                assert(r[i] == u[i - 1]);
                if u[i - 1] != p {
                    let m = choose|m: int| 0 <= m < t.len() && t[m] == u[i - 1];
                    assert(s[m + 1] == r[i]);
                }
            }
        }
    }
}

/// Listed profiles come sorted by name.
pub proof fn law_sort_by_name_sorted(s: Seq<ProfileView>)
    ensures
        sorted_by_name(sort_by_name(s)),
    decreases s.len(),
{
    if s.len() > 0 {
        law_sort_by_name_sorted(s.drop_last());
        lemma_insert_by_name_sorted(sort_by_name(s.drop_last()), s.last());
    }
}

proof fn lemma_insert_by_name_is_insert(s: Seq<ProfileView>, p: ProfileView) -> (j: int)
    ensures
        0 <= j <= s.len(),
        insert_by_name(s, p) == s.insert(j, p),
    decreases s.len(),
{
    if s.len() == 0 {
        assert(seq![p] =~= s.insert(0, p));
        0
    } else if lex_lt(p.name, s[0].name) {
        assert(seq![p] + s =~= s.insert(0, p));
        0
    } else {
        let j1 = lemma_insert_by_name_is_insert(s.drop_first(), p);
        assert(seq![s[0]] + s.drop_first().insert(j1, p) =~= s.insert(j1 + 1, p));
        j1 + 1
    }
}

/// Sorting neither drops, adds nor duplicates a profile: the sorted list
/// holds the same profiles, each as many times.
pub proof fn law_sort_keeps_profiles(s: Seq<ProfileView>)
    ensures
        sort_by_name(s).to_multiset() == s.to_multiset(),
        sort_by_name(s).len() == s.len(),
    decreases s.len(),
{
    broadcast use vstd::seq_lib::group_to_multiset_ensures;
    if s.len() > 0 {
        let rest = s.drop_last();
        law_sort_keeps_profiles(rest);
        let j = lemma_insert_by_name_is_insert(sort_by_name(rest), s.last());
        vstd::seq_lib::to_multiset_insert(sort_by_name(rest), j, s.last());
        vstd::seq_lib::to_multiset_build(rest, s.last());
        assert(rest.push(s.last()) =~= s);
    }
}

/// Sorts profiles by name, keeping the order of equal names.
pub fn sort_profiles(profiles: Vec<Profile>) -> (r: Vec<Profile>)
    ensures
        profile_views(r@) == sort_by_name(profile_views(profiles@)),
{
    let ghost s = profile_views(profiles@);
    let mut rest = profiles;
    let mut out: Vec<Profile> = Vec::new();
    let n = rest.len();
    let mut i: usize = 0;
    assert(s.take(0) =~= Seq::<ProfileView>::empty());
    assert(profile_views(out@) =~= Seq::<ProfileView>::empty());
    while i < n
        invariant
            i <= n == s.len(),
            rest@.len() == n - i,
            forall|k: int| 0 <= k < n - i ==> #[trigger] rest@[k]@ == s[i + k],
            profile_views(out@) == sort_by_name(s.take(i as int)),
        decreases n - i,
    {
        let p = rest.remove(0);
        assert(p@ == s[i as int]);
        let key = chars_of(p.name.as_str());
        let ghost sorted = profile_views(out@);
        let mut j: usize = 0;
        while j < out.len() && !chars_lt(key.as_slice(), chars_of(out[j].name.as_str()).as_slice())
            invariant
                j <= out@.len(),
                sorted == profile_views(out@),
                key@ == p@.name,
                forall|k: int| 0 <= k < j ==> !lex_lt(p@.name, #[trigger] sorted[k].name),
            decreases out@.len() - j,
        {
            assert(sorted[j as int] == out@[j as int]@);
            j = j + 1;
        }
        proof {
            if j < out@.len() {
                assert(sorted[j as int] == out@[j as int]@);
            }
            lemma_insert_by_name_at(sorted, p@, j as int);
            assert(s.take(i + 1).drop_last() =~= s.take(i as int));
        }
        let ghost pv = p@;
        out.insert(j, p);
        assert(profile_views(out@) =~= sorted.take(j as int) + seq![pv] + sorted.skip(j as int));
        i = i + 1;
        assert forall|k: int| 0 <= k < n - i implies #[trigger] rest@[k]@ == s[i + k] by {}
    }
    assert(s.take(n as int) =~= s);
    out
}

/// The profiles in a profile directory, sorted by name. `entries` are the
/// directory's entries in the order the directory yields them, and
/// `descriptions` what reading the descriptions file gave.
pub fn list_profiles(entries: &Vec<DirectoryEntry>, descriptions: &Result<DescriptionTable, ProfileError>) -> (r: Result<Vec<Profile>, ProfileError>)
    ensures
        r matches Ok(ps) ==> collect_profiles(entry_views(entries@), read_view(*descriptions)) matches Ok(found) && profile_views(ps@) == sort_by_name(found),
        r matches Err(e) ==> collect_profiles(entry_views(entries@), read_view(*descriptions)) == Err::<Seq<ProfileView>, ProfileErrorView>(e@),
{
    let ghost es = entry_views(entries@);
    let ghost d = read_view(*descriptions);
    let mut found: Vec<Profile> = Vec::new();
    let n = entries.len();
    let mut i: usize = 0;
    assert(es.skip(0) =~= es);
    proof {
        match collect_profiles(es, d) {
            Ok(ps) => { assert(Seq::<ProfileView>::empty() + ps =~= ps); },
            Err(_) => {},
        }
    }
    while i < n
        invariant
            i <= n == entries@.len() == es.len(),
            es == entry_views(entries@),
            d == read_view(*descriptions),
            collect_profiles(es, d) == match collect_profiles(es.skip(i as int), d) {
                Ok(ps) => Ok::<Seq<ProfileView>, ProfileErrorView>(profile_views(found@) + ps),
                Err(e) => Err(e),
            },
        decreases n - i,
    {
        let e = &entries[i];
        let ghost rest = es.skip(i as int);
        assert(rest[0] == e@);
        assert(rest.drop_first() =~= es.skip(i + 1));
        if e.is_file && is_profile_file_name(&e.path) {
            let p = parse_profile_file(&e.path, descriptions)?;
            let ghost before = profile_views(found@);
            found.push(p);
            proof {
                assert(profile_views(found@) =~= before.push(p@));
                match collect_profiles(es.skip(i + 1), d) {
                    Ok(ps) => { assert(before + (seq![p@] + ps) =~= before.push(p@) + ps); },
                    Err(_) => {},
                }
            }
        }
        i = i + 1;
    }
    assert(es.skip(n as int) =~= Seq::<DirectoryEntryView>::empty());
    assert(profile_views(found@) + Seq::<ProfileView>::empty() =~= profile_views(found@));
    Ok(sort_profiles(found))
}

/// The query as it is matched: trimmed and lowercased.
pub open spec fn query_of(query: Seq<char>) -> Seq<char> {
    lowercase(trim(query))
}

/// The lowercased name or description of `p` contains `q`.
pub open spec fn matches_query(p: ProfileView, q: Seq<char>) -> bool {
    contains_seq(lowercase(p.name), q) || contains_seq(lowercase(p.description), q)
}

/// The profiles of `s` that match `q`, in order.
pub open spec fn select(s: Seq<ProfileView>, q: Seq<char>) -> Seq<ProfileView>
    decreases s.len(),
{
    if s.len() == 0 {
        s
    } else if matches_query(s[0], q) {
        seq![s[0]] + select(s.drop_first(), q)
    } else {
        select(s.drop_first(), q)
    }
}

/// The profiles a list of references points to.
pub open spec fn ref_views(r: Seq<&Profile>) -> Seq<ProfileView> {
    r.map_values(|p: &Profile| p@)
}

/// A profile matches a search text `q` exactly when `q` occurs as a run of
/// consecutive characters, at any position, in its lowercased name or its
/// lowercased description.
pub proof fn law_match_anywhere(p: ProfileView, q: Seq<char>)
    ensures
        matches_query(p, q) <==> {
            ||| exists|i: int| 0 <= i && i + q.len() <= lowercase(p.name).len() && #[trigger] lowercase(p.name).subrange(i, i + q.len()) == q
            ||| exists|i: int| 0 <= i && i + q.len() <= lowercase(p.description).len() && #[trigger] lowercase(p.description).subrange(i, i + q.len()) == q
        },
{
    let n = lowercase(p.name);
    let d = lowercase(p.description);
    if contains_seq(n, q) {
        let i = choose|i: int| occurs_at(n, q, i);
        assert(n.subrange(i, i + q.len()) == q);
    }
    if contains_seq(d, q) {
        let i = choose|i: int| occurs_at(d, q, i);
        assert(d.subrange(i, i + q.len()) == q);
    }
    if exists|i: int| 0 <= i && i + q.len() <= n.len() && #[trigger] n.subrange(i, i + q.len()) == q {
        let i = choose|i: int| 0 <= i && i + q.len() <= n.len() && #[trigger] n.subrange(i, i + q.len()) == q;
        assert(occurs_at(n, q, i));
    }
    if exists|i: int| 0 <= i && i + q.len() <= d.len() && #[trigger] d.subrange(i, i + q.len()) == q {
        let i = choose|i: int| 0 <= i && i + q.len() <= d.len() && #[trigger] d.subrange(i, i + q.len()) == q;
        assert(occurs_at(d, q, i));
    }
}

/// The profiles kept for a search are, in their order, exactly those that
/// match it.
pub proof fn law_search_keeps_matches(s: Seq<ProfileView>, q: Seq<char>)
    ensures
        select(s, q) == s.filter(|p: ProfileView| matches_query(p, q)),
    decreases s.len(),
{
    let pred = |p: ProfileView| matches_query(p, q);
    if s.len() > 0 {
        law_search_keeps_matches(s.drop_first(), q);
        assert(s =~= seq![s[0]] + s.drop_first());
        Seq::filter_distributes_over_add(seq![s[0]], s.drop_first(), pred);
        let one = seq![s[0]];
        reveal_with_fuel(Seq::<ProfileView>::filter, 2);
        assert(one.drop_last() =~= Seq::<ProfileView>::empty());
        assert(one.drop_last().filter(pred) =~= Seq::<ProfileView>::empty());
        assert(one.last() == s[0]);
        assert(pred(s[0]) == matches_query(s[0], q));
        if matches_query(s[0], q) {
            assert(one.filter(pred) =~= one);
        } else {
            assert(one.filter(pred) =~= Seq::<ProfileView>::empty());
        }
    }
}

/// Whether a profile matches a search, given the lowercased forms of its
/// name, its description and the trimmed query: the query occurs in the
/// name or in the description.
pub fn lowered_matches(name_lower: &str, description_lower: &str, query_lower: &str) -> (r: bool)
    ensures
        r == (contains_seq(name_lower@, query_lower@) || contains_seq(description_lower@, query_lower@)),
{
    let q = chars_of(query_lower);
    let name = chars_of(name_lower);
    if contains(name.as_slice(), q.as_slice()) {
        return true;
    }
    let description = chars_of(description_lower);
    contains(description.as_slice(), q.as_slice())
}

/// The profiles shown for a search: all of them for a blank query, else
/// those whose name or description contains the query, ignoring case.
pub fn filter_profiles<'a>(profiles: &'a [Profile], query: &str) -> (r: Vec<&'a Profile>)
    ensures
        ref_views(r@) == if query_of(query@).len() == 0 {
            profile_views(profiles@)
        } else {
            select(profile_views(profiles@), query_of(query@))
        },
{
    let ghost s = profile_views(profiles@);
    let query_chars = chars_of(query);
    let trimmed = string_from_chars(trim_chars(query_chars.as_slice()).as_slice());
    let query_lower = to_lowercase(trimmed.as_str());
    let q = chars_of(query_lower.as_str());
    let all = q.len() == 0;
    let mut out: Vec<&'a Profile> = Vec::new();
    let n = profiles.len();
    let mut i: usize = 0;
    assert(s.skip(0) =~= s);
    assert(Seq::<ProfileView>::empty() + select(s, q@) =~= select(s, q@));
    while i < n
        invariant
            i <= n == profiles@.len() == s.len(),
            s == profile_views(profiles@),
            all == (q@.len() == 0),
            q@ == query_lower@,
            all ==> ref_views(out@) == s.take(i as int),
            !all ==> ref_views(out@) + select(s.skip(i as int), q@) == select(s, q@),
        decreases n - i,
    {
        let p = &profiles[i];
        let ghost rest = s.skip(i as int);
        assert(rest[0] == p@);
        assert(rest.drop_first() =~= s.skip(i + 1));
        let ghost before = ref_views(out@);
        if all {
            out.push(p);
            assert(ref_views(out@) =~= s.take(i + 1));
        } else {
            let name_lower = to_lowercase(p.name.as_str());
            let description_lower = to_lowercase(p.description.as_str());
            if lowered_matches(name_lower.as_str(), description_lower.as_str(), query_lower.as_str()) {
                out.push(p);
                assert(ref_views(out@) =~= before + seq![p@]);
                assert(before + seq![p@] + select(s.skip(i + 1), q@) =~= before + (seq![p@] + select(s.skip(i + 1), q@)));
            }
        }
        i = i + 1;
    }
    assert(s.take(n as int) =~= s);
    assert(s.skip(n as int) =~= Seq::<ProfileView>::empty());
    assert(ref_views(out@) + Seq::<ProfileView>::empty() =~= ref_views(out@));
    out
}

/// The first checks of creating a profile: the name and the description
/// must be valid. Gives the path of the new profile file.
pub fn check_new_profile(agents_dir: &FsPath, name: &str, description: &str) -> (r: Result<FsPath, ProfileError>)
    ensures
        r matches Ok(p) ==> check_name(name@) is Ok && description_of(description@) is Ok && p@ == join_name(agents_dir@, profile_file_name_of(name@)),
        r matches Err(e) ==> match check_name(name@) {
            Err(n) => e@ == ProfileErrorView::Name(n),
            Ok(_) => description_of(description@) matches Err(d) && e@ == ProfileErrorView::Description(d),
        },
{
    if let Err(e) = validate_profile_name(name) {
        return Err(ProfileError::Name(e));
    }
    if let Err(e) = validate_profile_description(description) {
        return Err(ProfileError::Description(e));
    }
    let file_name = match profile_file_name(name) {
        Ok(f) => f,
        Err(e) => return Err(ProfileError::Name(e)),
    };
    Ok(agents_dir.join_name(file_name.as_str()))
}

/// What adding the description of a new profile gives.
pub open spec fn added_description(descriptions: Result<Seq<EntryView>, ProfileErrorView>, name: Seq<char>, description: Seq<char>) -> Result<Seq<EntryView>, ProfileErrorView> {
    match descriptions {
        Err(e) => Err(e),
        Ok(t) => if table_get(t, name) is Some {
            Err(ProfileErrorView::DescriptionExists(name))
        } else {
            match description_of(description) {
                Err(e) => Err(ProfileErrorView::Description(e)),
                Ok(d) => Ok(sorted_insert(t, name, d)),
            }
        },
    }
}

/// Adds the description of a new profile to the table read from the
/// descriptions file; a profile that already has one is refused.
pub fn add_new_description(descriptions: Result<DescriptionTable, ProfileError>, name: &str, description: &str) -> (r: Result<DescriptionTable, ProfileError>)
    requires
        check_name(name@) is Ok,
    ensures
        r matches Ok(t) ==> added_description(read_view(descriptions), name@, description@) == Ok::<Seq<EntryView>, ProfileErrorView>(t@),
        r matches Err(e) ==> added_description(read_view(descriptions), name@, description@) == Err::<Seq<EntryView>, ProfileErrorView>(e@),
{
    let table = descriptions?;
    let key = chars_of(name);
    if table.find(key.as_slice()).is_some() {
        return Err(ProfileError::DescriptionExists(String::from_str(name)));
    }
    let d = match parse_description(description) {
        Err(e) => return Err(ProfileError::Description(e)),
        Ok(d) => d,
    };
    proof {
        crate::text::lemma_trim_idempotent(description@);
    }
    Ok(table.insert(String::from_str(name), d))
}

/// The text a new profile file starts with.
pub open spec fn starter_text() -> Seq<char> {
    "# Instructions\n"@
}

/// The text a new profile file starts with (see [`starter_text`]).
pub fn starter_profile_text() -> (r: &'static str)
    ensures
        r@ == starter_text(),
{
    "# Instructions\n"
}

/// The files that make up a new profile: the profile file with its text,
/// and the new contents of the descriptions file.
#[derive(Debug)]
pub struct NewProfileFiles {
    pub profile_path: FsPath,
    pub profile_text: String,
    pub descriptions_text: String,
}

/// What creating the profile `name` in `dir` writes, given whether its
/// file already exists and what reading the descriptions file gave: the
/// profile file's path and text, and the descriptions file's new text.
pub open spec fn new_profile_files(dir: Seq<PartView>, name: Seq<char>, description: Seq<char>, exists: bool, descriptions: Result<Seq<EntryView>, ProfileErrorView>) -> Result<(Seq<PartView>, Seq<char>, Seq<char>), ProfileErrorView> {
    match check_name(name) {
        Err(n) => Err(ProfileErrorView::Name(n)),
        Ok(_) => match description_of(description) {
            Err(d) => Err(ProfileErrorView::Description(d)),
            Ok(_) => if exists {
                Err(ProfileErrorView::ProfileExists)
            } else {
                match added_description(descriptions, name, description) {
                    Err(e) => Err(e),
                    Ok(t) => Ok((join_name(dir, profile_file_name_of(name)), starter_text(), render(t))),
                }
            },
        },
    }
}

/// What to write to create the profile `name` with `description` in
/// `agents_dir`, where `profile_exists` tells whether its file is already
/// there and `descriptions` is what reading the descriptions file gave.
pub fn plan_new_profile(agents_dir: &FsPath, name: &str, description: &str, profile_exists: bool, descriptions: Result<DescriptionTable, ProfileError>) -> (r: Result<NewProfileFiles, ProfileError>)
    ensures
        match new_profile_files(agents_dir@, name@, description@, profile_exists, read_view(descriptions)) {
            Ok(f) => r matches Ok(files) && files.profile_path@ == f.0 && files.profile_text@ == f.1 && files.descriptions_text@ == f.2,
            Err(e) => r matches Err(x) && x@ == e,
        },
{
    let path = check_new_profile(agents_dir, name, description)?;
    if profile_exists {
        return Err(ProfileError::ProfileExists);
    }
    let table = add_new_description(descriptions, name, description)?;
    Ok(NewProfileFiles {
        profile_path: path,
        profile_text: String::from_str(starter_profile_text()),
        descriptions_text: table.render(),
    })
}

/// The profile name read from a profile's file name is the name the file
/// was named for.
pub proof fn law_file_name_gives_name(dir: Seq<PartView>, name: Seq<char>)
    requires
        check_name(name) is Ok,
    ensures
        profile_name_of(join_name(dir, profile_file_name_of(name))) == Ok::<Seq<char>, ProfileErrorView>(name),
{
    let f = profile_file_name_of(name);
    reveal_strlit("AGENTS.");
    reveal_strlit(".md");
    assert(join_name(dir, f).last() == PartView::Normal(f));
    assert(f.take(7) =~= "AGENTS."@);
    assert(f.skip(f.len() - 3) =~= ".md"@);
    assert(name_in_file_name(f) =~= name);
}

/// A description written for a profile is the one read back for it, and
/// every other profile keeps the description it had.
pub proof fn law_written_description_reads_back(t: Seq<EntryView>, name: Seq<char>, description: Seq<char>, other: Seq<char>)
    requires
        valid_table(t),
        written_description(Ok(t), name, description) is Ok,
    ensures
        parse_descriptions(written_description(Ok(t), name, description)->Ok_0) matches Ok(t2) && table_get(t2, name) == Some(trim(description)) && (other != name ==> table_get(t2, other) == table_get(t, other)),
{
    let d = trim(description);
    crate::text::lemma_trim_idempotent(description);
    assert(entry_valid((name, d)));
    lemma_sorted_insert_valid(t, name, d);
    law_render_then_parse(sorted_insert(t, name, d));
    if other != name {
        lemma_sorted_insert_get(t, name, d, other);
    }
}

/// A removed description is no longer read back, and every other profile
/// keeps the description it had.
pub proof fn law_removed_description_is_gone(t: Seq<EntryView>, name: Seq<char>, other: Seq<char>)
    requires
        valid_table(t),
        check_name(name) is Ok,
    ensures
        parse_descriptions(removed_description(Ok(t), name)->Ok_0) matches Ok(t2) && table_get(t2, name) is None && (other != name ==> table_get(t2, other) == table_get(t, other)),
{
    lemma_remove_key_valid(t, name);
    law_render_then_parse(remove_key(t, name));
    lemma_remove_key_get(t, name, name);
    lemma_remove_key_get(t, name, other);
}

/// A profile created with a valid name and description, where neither its
/// file nor its description exists yet, is written as the file
/// `AGENTS.<name>.md` holding the starter text, and the descriptions file
/// then reads back with the new description and every other one as it was;
/// the profile reads back with that name and the trimmed description.
pub proof fn law_created_profile_reads_back(dir: Seq<PartView>, t: Seq<EntryView>, name: Seq<char>, description: Seq<char>, other: Seq<char>)
    requires
        valid_table(t),
        check_name(name) is Ok,
        description_of(description) is Ok,
        table_get(t, name) is None,
    ensures
        new_profile_files(dir, name, description, false, Ok(t)) is Ok,
        ({
            let f = new_profile_files(dir, name, description, false, Ok(t))->Ok_0;
            &&& f.0 == join_name(dir, profile_file_name_of(name))
            &&& f.1 == "# Instructions\n"@
            &&& parse_descriptions(f.2) matches Ok(t2)
            &&& table_get(t2, name) == Some(trim(description))
            &&& (other != name ==> table_get(t2, other) == table_get(t, other))
            &&& profile_of(f.0, Ok(t2)) == Ok::<ProfileView, ProfileErrorView>(ProfileView {
                name,
                description: trim(description),
                path: join_name(dir, profile_file_name_of(name)),
            })
        }),
{
    let d = trim(description);
    crate::text::lemma_trim_idempotent(description);
    assert(entry_valid((name, d)));
    lemma_sorted_insert_valid(t, name, d);
    law_render_then_parse(sorted_insert(t, name, d));
    law_file_name_gives_name(dir, name);
    if other != name {
        lemma_sorted_insert_get(t, name, d, other);
    }
}

} // verus!
