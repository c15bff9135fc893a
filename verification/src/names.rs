//! The rules for profile names and descriptions, shared by both profile
//! layouts.

use vstd::prelude::*;

verus! {

broadcast use vstd::string::group_string_axioms;

/// Profile names are shorter than this many characters.
pub const MAX_NAME_LEN_EXCLUSIVE: usize = 15;

/// Profile descriptions are shorter than this many characters.
pub const MAX_DESCRIPTION_LEN_EXCLUSIVE: usize = 100;

/// Why a profile name was refused.
#[derive(Debug, Clone, Copy, PartialEq, Eq)]
pub enum NameError {
    Empty,
    TooLong,
    InvalidCharacters,
}

/// Why a description was refused.
#[derive(Debug, Clone, Copy, PartialEq, Eq)]
pub enum DescriptionError {
    Empty,
    MultipleLines,
    TooLong,
    /// The line is not a `<!-- whitman: ... -->` comment.
    NotAComment,
}

/// ASCII letters, digits, `_` and `-`.
pub open spec fn is_name_char(c: char) -> bool {
    ||| ('a' <= c && c <= 'z')
    ||| ('A' <= c && c <= 'Z')
    ||| ('0' <= c && c <= '9')
    ||| c == '_'
    ||| c == '-'
}

/// The verdict on a candidate profile name.
pub open spec fn check_name(name: Seq<char>) -> Result<(), NameError> {
    if name.len() == 0 {
        Err(NameError::Empty)
    } else if name.len() >= MAX_NAME_LEN_EXCLUSIVE {
        Err(NameError::TooLong)
    } else if !(forall|i: int| 0 <= i < name.len() ==> is_name_char(#[trigger] name[i])) {
        Err(NameError::InvalidCharacters)
    } else {
        Ok(())
    }
}

/// A valid profile name.
pub open spec fn is_valid_name(name: Seq<char>) -> bool {
    check_name(name) is Ok
}

pub fn name_char(c: char) -> (r: bool)
    ensures
        r == is_name_char(c),
{
    ('a' <= c && c <= 'z') || ('A' <= c && c <= 'Z') || ('0' <= c && c <= '9') || c == '_' || c
        == '-'
}

/// A name character is exactly an ASCII letter, an ASCII digit, `_` or
/// `-`, given by their code points.
pub proof fn law_name_characters(c: char)
    ensures
        is_name_char(c) <==> {
            let u = c as u32;
            ||| 48 <= u <= 57
            ||| 65 <= u <= 90
            ||| 97 <= u <= 122
            ||| u == 95
            ||| u == 45
        },
{
}

/// A profile name is accepted exactly when it has between 1 and 14
/// characters and each is an ASCII letter, an ASCII digit, `_` or `-`; any
/// other character, such as `@` or `.`, makes it refused.
pub proof fn law_name_rules(name: Seq<char>)
    ensures
        check_name(name) is Ok <==> {
            &&& 0 < name.len() < 15
            &&& forall|i: int| 0 <= i < name.len() ==> {
                let u = #[trigger] name[i] as u32;
                ||| 48 <= u <= 57
                ||| 65 <= u <= 90
                ||| 97 <= u <= 122
                ||| u == 95
                ||| u == 45
            }
        },
        (exists|i: int| 0 <= i < name.len() && (name[i] == '@' || name[i] == '.' || name[i] == ' ')) ==> check_name(name) is Err,
{
    assert forall|i: int| 0 <= i < name.len() implies (is_name_char(name[i]) <==> {
        let u = name[i] as u32;
        ||| 48 <= u <= 57
        ||| 65 <= u <= 90
        ||| 97 <= u <= 122
        ||| u == 95
        ||| u == 45
    }) by {
        law_name_characters(name[i]);
    }
}

/// Checks a profile name given as characters.
pub fn check_name_chars(name: &[char]) -> (r: Result<(), NameError>)
    ensures
        r == check_name(name@),
{
    if name.len() == 0 {
        return Err(NameError::Empty);
    }
    if name.len() >= MAX_NAME_LEN_EXCLUSIVE {
        return Err(NameError::TooLong);
    }
    let mut i: usize = 0;
    while i < name.len()
        invariant
            0 < name@.len() < MAX_NAME_LEN_EXCLUSIVE,
            i <= name@.len(),
            forall|k: int| 0 <= k < i ==> is_name_char(#[trigger] name@[k]),
        decreases name@.len() - i,
    {
        if !name_char(name[i]) {
            assert(!is_name_char(name@[i as int]));
            return Err(NameError::InvalidCharacters);
        }
        i = i + 1;
    }
    Ok(())
}

impl NameError {
    pub open spec fn spec_message(self) -> Seq<char> {
        match self {
            NameError::Empty => "profile name cannot be empty"@,
            NameError::TooLong => "profile name must be under 15 characters"@,
            NameError::InvalidCharacters =>
                "profile name may only contain ASCII letters, numbers, underscores, and hyphens"@,
        }
    }

    /// The text the error is shown with.
    pub fn message(&self) -> (r: String)
        ensures
            r@ == self.spec_message(),
    {
        match self {
            NameError::Empty => String::from_str("profile name cannot be empty"),
            NameError::TooLong => String::from_str("profile name must be under 15 characters"),
            NameError::InvalidCharacters => String::from_str(
                "profile name may only contain ASCII letters, numbers, underscores, and hyphens",
            ),
        }
    }
}

impl DescriptionError {
    pub open spec fn spec_message(self) -> Seq<char> {
        match self {
            DescriptionError::Empty => "description cannot be empty"@,
            DescriptionError::MultipleLines => "description must be a single line"@,
            DescriptionError::TooLong => "description must be under 100 characters"@,
            DescriptionError::NotAComment =>
                "first line must be formatted as <!-- whitman: description -->"@,
        }
    }

    /// The text the error is shown with.
    pub fn message(&self) -> (r: String)
        ensures
            r@ == self.spec_message(),
    {
        match self {
            DescriptionError::Empty => String::from_str("description cannot be empty"),
            DescriptionError::MultipleLines => String::from_str("description must be a single line"),
            DescriptionError::TooLong => String::from_str("description must be under 100 characters"),
            DescriptionError::NotAComment => String::from_str(
                "first line must be formatted as <!-- whitman: description -->",
            ),
        }
    }
}

} // verus!
