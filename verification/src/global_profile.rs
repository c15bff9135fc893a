//! Global profiles: `agents.<name>.md` files under `~/.whitman/profiles`,
//! each described by its first line, `<!-- whitman: description -->`.

use vstd::prelude::*;
use crate::names::{check_name, check_name_chars, DescriptionError, NameError};
use crate::path::{file_name_of, join_name, FsPath, PartView};
use crate::profile::{profile_views, sort_by_name, sort_profiles, ProfileView};
use crate::text::{chars_of, copy_range, ends_with, has_prefix, has_suffix, lines, split_lines, starts_with, string_from_chars, trim, trim_chars};

pub use crate::names::{MAX_DESCRIPTION_LEN_EXCLUSIVE, MAX_NAME_LEN_EXCLUSIVE};
pub use crate::profile::{filter_profiles, validate_profile_name, Profile};

verus! {

broadcast use vstd::string::group_string_axioms;

/// Why a global profile operation failed.
#[derive(Debug)]
pub enum GlobalProfileError {
    NoHomeDirectory,
    Name(NameError),
    NoFileName,
    FileNamePattern(String),
    InvalidProfileFile(NameError),
    Io(String),
    EmptyProfile,
    InvalidDescription(DescriptionError),
}

pub enum GlobalProfileErrorView {
    NoHomeDirectory,
    Name(NameError),
    NoFileName,
    FileNamePattern(Seq<char>),
    InvalidProfileFile(NameError),
    Io(Seq<char>),
    EmptyProfile,
    InvalidDescription(DescriptionError),
}

impl View for GlobalProfileError {
    type V = GlobalProfileErrorView;

    open spec fn view(&self) -> GlobalProfileErrorView {
        match self {
            GlobalProfileError::NoHomeDirectory => GlobalProfileErrorView::NoHomeDirectory,
            GlobalProfileError::Name(e) => GlobalProfileErrorView::Name(*e),
            GlobalProfileError::NoFileName => GlobalProfileErrorView::NoFileName,
            GlobalProfileError::FileNamePattern(s) => GlobalProfileErrorView::FileNamePattern(s@),
            GlobalProfileError::InvalidProfileFile(e) => GlobalProfileErrorView::InvalidProfileFile(*e),
            GlobalProfileError::Io(s) => GlobalProfileErrorView::Io(s@),
            GlobalProfileError::EmptyProfile => GlobalProfileErrorView::EmptyProfile,
            GlobalProfileError::InvalidDescription(e) => GlobalProfileErrorView::InvalidDescription(*e),
        }
    }
}

impl GlobalProfileErrorView {
    pub open spec fn spec_message(self) -> Seq<char> {
        match self {
            GlobalProfileErrorView::NoHomeDirectory => "could not determine the user's home directory"@,
            GlobalProfileErrorView::Name(e) => e.spec_message(),
            GlobalProfileErrorView::NoFileName => "profile path has no valid UTF-8 file name"@,
            GlobalProfileErrorView::FileNamePattern(f) =>
                "profile file name must match agents.<name>.md: "@ + f,
            GlobalProfileErrorView::InvalidProfileFile(e) => "invalid profile file: "@ + e.spec_message(),
            GlobalProfileErrorView::Io(m) => m,
            GlobalProfileErrorView::EmptyProfile => "profile is empty"@,
            GlobalProfileErrorView::InvalidDescription(e) => "invalid profile description: "@
                + e.spec_message(),
        }
    }
}

impl GlobalProfileError {
    /// The text the error is shown with.
    pub fn message(&self) -> (r: String)
        ensures
            r@ == self@.spec_message(),
    {
        match self {
            GlobalProfileError::NoHomeDirectory => String::from_str(
                "could not determine the user's home directory",
            ),
            GlobalProfileError::Name(e) => e.message(),
            GlobalProfileError::NoFileName => String::from_str(
                "profile path has no valid UTF-8 file name",
            ),
            GlobalProfileError::FileNamePattern(f) => {
                let s = String::from_str("profile file name must match agents.<name>.md: ");
                s.concat(f.as_str())
            },
            GlobalProfileError::InvalidProfileFile(e) => {
                let s = String::from_str("invalid profile file: ");
                s.concat(e.message().as_str())
            },
            GlobalProfileError::Io(m) => m.clone(),
            GlobalProfileError::EmptyProfile => String::from_str("profile is empty"),
            GlobalProfileError::InvalidDescription(e) => {
                let s = String::from_str("invalid profile description: ");
                s.concat(e.message().as_str())
            },
        }
    }
}

/// `~/.whitman/profiles`, for the home directory `home`; without a home
/// directory there is none.
pub fn default_profiles_dir(home: Option<FsPath>) -> (r: Result<FsPath, GlobalProfileError>)
    ensures
        match home {
            Some(h) => r matches Ok(p) && p@ == join_name(join_name(h@, ".whitman"@), "profiles"@),
            None => r matches Err(e) && e@ == GlobalProfileErrorView::NoHomeDirectory,
        },
{
    match home {
        None => Err(GlobalProfileError::NoHomeDirectory),
        Some(h) => Ok(h.join_name(".whitman").join_name("profiles")),
    }
}

/// What `parse_description` gives for the first line of a profile: the
/// trimmed text of a `<!-- whitman: … -->` comment, if it is non-empty and
/// under the length limit.
pub open spec fn comment_description_of(line: Seq<char>) -> Result<Seq<char>, DescriptionError> {
    let t = trim(line);
    if !(has_prefix(t, "<!-- whitman:"@) && has_suffix(t, "-->"@)) {
        Err(DescriptionError::NotAComment)
    } else {
        let d = trim(t.subrange("<!-- whitman:"@.len() as int, t.len() - "-->"@.len()));
        if d.len() == 0 {
            Err(DescriptionError::Empty)
        } else if d.len() >= MAX_DESCRIPTION_LEN_EXCLUSIVE {
            Err(DescriptionError::TooLong)
        } else {
            Ok(d)
        }
    }
}

/// Reads the description out of a profile's first line.
pub fn parse_description(line: &str) -> (r: Result<String, DescriptionError>)
    ensures
        r matches Ok(d) ==> comment_description_of(line@) == Ok::<Seq<char>, DescriptionError>(d@),
        r matches Err(e) ==> comment_description_of(line@) == Err::<Seq<char>, DescriptionError>(e),
{
    let chars = chars_of(line);
    let t = trim_chars(chars.as_slice());
    let prefix = chars_of("<!-- whitman:");
    let suffix = chars_of("-->");
    proof {
        reveal_strlit("<!-- whitman:");
        reveal_strlit("-->");
    }
    if !starts_with(t.as_slice(), prefix.as_slice()) || !ends_with(t.as_slice(), suffix.as_slice()) {
        return Err(DescriptionError::NotAComment);
    }
    proof {
        // prefix and suffix cannot overlap: no tail of the prefix begins the suffix
        if t@.len() < 16 {
            let k = t@.len() - 3;
            assert(t@.take(13)[k] == t@[k]);
            assert(t@.skip(k)[0] == t@[k]);
        }
    }
    let inner = copy_range(t.as_slice(), 13, t.len() - 3);
    let d = trim_chars(inner.as_slice());
    if d.len() == 0 {
        return Err(DescriptionError::Empty);
    }
    if d.len() >= MAX_DESCRIPTION_LEN_EXCLUSIVE {
        return Err(DescriptionError::TooLong);
    }
    Ok(string_from_chars(d.as_slice()))
}

/// The file name of the global profile called `name`.
pub open spec fn profile_file_name_of(name: Seq<char>) -> Seq<char> {
    "agents."@ + name + ".md"@
}

/// `agents.<name>.md`, for a valid `name`.
pub fn profile_file_name(name: &str) -> (r: Result<String, NameError>)
    ensures
        r matches Ok(f) ==> check_name(name@) is Ok && f@ == profile_file_name_of(name@),
        r matches Err(e) ==> check_name(name@) == Err::<(), NameError>(e),
{
    validate_profile_name(name)?;
    let s = String::from_str("agents.");
    let s = s.concat(name);
    Ok(s.concat(".md"))
}

/// `f` has the form `agents.<…>.md`: it starts with `agents.`, ends with
/// `.md`, and the two do not overlap (so `agents.md` has not this form).
pub open spec fn has_profile_pattern(f: Seq<char>) -> bool {
    &&& has_prefix(f, "agents."@)
    &&& has_suffix(f, ".md"@)
    &&& f.len() >= "agents."@.len() + ".md"@.len()
}

/// What `profile_name_from_path` gives for `path`.
pub open spec fn profile_name_of(path: Seq<PartView>) -> Result<Seq<char>, GlobalProfileErrorView> {
    match file_name_of(path) {
        None => Err(GlobalProfileErrorView::NoFileName),
        Some(f) => if has_profile_pattern(f) {
            Ok(f.subrange("agents."@.len() as int, f.len() - ".md"@.len()))
        } else {
            Err(GlobalProfileErrorView::FileNamePattern(f))
        },
    }
}

/// The profile name that the file name of `path` holds; a file name not of
/// the form `agents.<name>.md`, `agents.md` among them, is refused.
pub fn profile_name_from_path(path: &FsPath) -> (r: Result<String, GlobalProfileError>)
    ensures
        r matches Ok(n) ==> profile_name_of(path@) == Ok::<Seq<char>, GlobalProfileErrorView>(n@),
        r matches Err(e) ==> profile_name_of(path@) == Err::<Seq<char>, GlobalProfileErrorView>(e@),
{
    let file_name = match path.file_name() {
        None => return Err(GlobalProfileError::NoFileName),
        Some(f) => f,
    };
    let f = chars_of(file_name.as_str());
    let prefix = chars_of("agents.");
    let suffix = chars_of(".md");
    proof {
        reveal_strlit("agents.");
        reveal_strlit(".md");
    }
    if f.len() < 10 || !starts_with(f.as_slice(), prefix.as_slice()) || !ends_with(f.as_slice(), suffix.as_slice()) {
        return Err(GlobalProfileError::FileNamePattern(file_name));
    }
    let n = copy_range(f.as_slice(), 7, f.len() - 3);
    Ok(string_from_chars(n.as_slice()))
}

/// `path` ends in a file name of the form `agents.<…>.md`.
pub fn is_profile_file_name(path: &FsPath) -> (r: bool)
    ensures
        r == (file_name_of(path@) matches Some(f) && has_profile_pattern(f)),
{
    match path.file_name() {
        None => false,
        Some(f) => {
            let f = chars_of(f.as_str());
            let prefix = chars_of("agents.");
            let suffix = chars_of(".md");
            proof {
                reveal_strlit("agents.");
                reveal_strlit(".md");
            }
            f.len() >= 10 && starts_with(f.as_slice(), prefix.as_slice()) && ends_with(f.as_slice(), suffix.as_slice())
        },
    }
}

/// Where a file that `AGENTS.md` held is kept: `agents.old.md` in the
/// profile directory.
pub fn old_profile_path(profiles_dir: &FsPath) -> (r: FsPath)
    ensures
        r@ == join_name(profiles_dir@, "agents.old.md"@),
{
    profiles_dir.join_name("agents.old.md")
}

/// The outcome of reading a file: its text, or why reading failed.
pub open spec fn read_text_view(r: Result<String, String>) -> Result<Seq<char>, Seq<char>> {
    match r {
        Ok(s) => Ok(s@),
        Err(m) => Err(m@),
    }
}

/// What `parse_profile_file` gives for the file at `path`, given what
/// reading it gave.
pub open spec fn profile_of(path: Seq<PartView>, contents: Result<Seq<char>, Seq<char>>) -> Result<ProfileView, GlobalProfileErrorView> {
    match profile_name_of(path) {
        Err(e) => Err(e),
        Ok(name) => match check_name(name) {
            Err(e) => Err(GlobalProfileErrorView::InvalidProfileFile(e)),
            Ok(_) => match contents {
                Err(m) => Err(GlobalProfileErrorView::Io(m)),
                Ok(text) => if lines(text).len() == 0 {
                    Err(GlobalProfileErrorView::EmptyProfile)
                } else {
                    match comment_description_of(lines(text)[0]) {
                        Err(e) => Err(GlobalProfileErrorView::InvalidDescription(e)),
                        Ok(d) => Ok(ProfileView { name, description: d, path }),
                    }
                },
            },
        },
    }
}

/// The global profile whose file is at `path`, given what reading the file
/// gave: its name from the file name, its description from the first line.
pub fn parse_profile_file(path: &FsPath, contents: &Result<String, String>) -> (r: Result<Profile, GlobalProfileError>)
    ensures
        r matches Ok(p) ==> profile_of(path@, read_text_view(*contents)) == Ok::<ProfileView, GlobalProfileErrorView>(p@),
        r matches Err(e) ==> profile_of(path@, read_text_view(*contents)) == Err::<ProfileView, GlobalProfileErrorView>(e@),
{
    let name = profile_name_from_path(path)?;
    let name_chars = chars_of(name.as_str());
    if let Err(e) = check_name_chars(name_chars.as_slice()) {
        return Err(GlobalProfileError::InvalidProfileFile(e));
    }
    let text = match contents {
        Err(m) => return Err(GlobalProfileError::Io(m.clone())),
        Ok(t) => t,
    };
    let chars = chars_of(text.as_str());
    let ls = split_lines(chars.as_slice());
    if ls.len() == 0 {
        return Err(GlobalProfileError::EmptyProfile);
    }
    let first = string_from_chars(ls[0].as_slice());
    let description = match parse_description(first.as_str()) {
        Err(e) => return Err(GlobalProfileError::InvalidDescription(e)),
        Ok(d) => d,
    };
    Ok(Profile { name, description, path: path.duplicate() })
}

/// An entry of the profile directory: its path, whether it is a regular
/// file, and, for a profile file, what reading it gave.
#[derive(Debug)]
pub struct ProfileFileEntry {
    pub path: FsPath,
    pub is_file: bool,
    pub contents: Option<Result<String, String>>,
}

pub struct ProfileFileEntryView {
    pub path: Seq<PartView>,
    pub is_file: bool,
    pub contents: Option<Result<Seq<char>, Seq<char>>>,
}

impl View for ProfileFileEntry {
    type V = ProfileFileEntryView;

    open spec fn view(&self) -> ProfileFileEntryView {
        ProfileFileEntryView {
            path: self.path@,
            is_file: self.is_file,
            contents: match self.contents {
                Some(r) => Some(read_text_view(r)),
                None => None,
            },
        }
    }
}

pub open spec fn entry_views(es: Seq<ProfileFileEntry>) -> Seq<ProfileFileEntryView> {
    es.map_values(|e: ProfileFileEntry| e@)
}

/// A regular file whose name has the `agents.<…>.md` form.
pub open spec fn is_candidate(e: ProfileFileEntryView) -> bool {
    e.is_file && (file_name_of(e.path) matches Some(f) && has_profile_pattern(f))
}

/// Every profile file comes with what reading it gave.
pub open spec fn candidates_read(es: Seq<ProfileFileEntryView>) -> bool {
    forall|i: int| 0 <= i < es.len() && is_candidate(#[trigger] es[i]) ==> es[i].contents is Some
}

/// The profiles of the profile files, in directory order; the first failure
/// ends the scan.
pub open spec fn collect_profiles(es: Seq<ProfileFileEntryView>) -> Result<Seq<ProfileView>, GlobalProfileErrorView>
    decreases es.len(),
{
    if es.len() == 0 {
        Ok(Seq::empty())
    } else if !is_candidate(es[0]) {
        collect_profiles(es.drop_first())
    } else {
        match profile_of(es[0].path, es[0].contents->Some_0) {
            Err(e) => Err(e),
            Ok(p) => match collect_profiles(es.drop_first()) {
                Ok(ps) => Ok(seq![p] + ps),
                Err(e) => Err(e),
            },
        }
    }
}

/// The global profiles of a profile directory, sorted by name.
pub fn list_profiles(entries: &Vec<ProfileFileEntry>) -> (r: Result<Vec<Profile>, GlobalProfileError>)
    requires
        candidates_read(entry_views(entries@)),
    ensures
        r matches Ok(ps) ==> collect_profiles(entry_views(entries@)) matches Ok(found) && profile_views(ps@) == sort_by_name(found),
        r matches Err(e) ==> collect_profiles(entry_views(entries@)) == Err::<Seq<ProfileView>, GlobalProfileErrorView>(e@),
{
    let ghost es = entry_views(entries@);
    let mut found: Vec<Profile> = Vec::new();
    let n = entries.len();
    let mut i: usize = 0;
    assert(es.skip(0) =~= es);
    proof {
        match collect_profiles(es) {
            Ok(ps) => { assert(Seq::<ProfileView>::empty() + ps =~= ps); },
            Err(_) => {},
        }
    }
    while i < n
        invariant
            i <= n == entries@.len() == es.len(),
            es == entry_views(entries@),
            candidates_read(es),
            collect_profiles(es) == match collect_profiles(es.skip(i as int)) {
                Ok(ps) => Ok::<Seq<ProfileView>, GlobalProfileErrorView>(profile_views(found@) + ps),
                Err(e) => Err(e),
            },
        decreases n - i,
    {
        let e = &entries[i];
        let ghost rest = es.skip(i as int);
        assert(rest[0] == e@);
        assert(rest.drop_first() =~= es.skip(i + 1));
        if e.is_file && is_profile_file_name(&e.path) {
            assert(is_candidate(es[i as int]));
            let contents = match &e.contents {
                Some(c) => c,
                None => {
                    assert(false);
                    return Err(GlobalProfileError::EmptyProfile);
                },
            };
            let p = parse_profile_file(&e.path, contents)?;
            let ghost before = profile_views(found@);
            found.push(p);
            proof {
                assert(profile_views(found@) =~= before.push(p@));
                match collect_profiles(es.skip(i + 1)) {
                    Ok(ps) => { assert(before + (seq![p@] + ps) =~= before.push(p@) + ps); },
                    Err(_) => {},
                }
            }
        }
        i = i + 1;
    }
    assert(es.skip(n as int) =~= Seq::<ProfileFileEntryView>::empty());
    assert(profile_views(found@) + Seq::<ProfileView>::empty() =~= profile_views(found@));
    Ok(sort_profiles(found))
}

} // verus!
