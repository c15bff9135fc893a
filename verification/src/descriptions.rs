//! The table of profile descriptions kept in `descriptions.toml`: one
//! `name = "description"` line per profile, sorted by name.

use vstd::prelude::*;
use crate::names::{check_name, is_name_char, is_valid_name, DescriptionError, NameError};
use crate::order::{chars_lt, lemma_lex_asymmetric, lemma_lex_irreflexive, lemma_lex_total, lemma_lex_transitive, lex_lt};
use crate::profile::description_of;
use crate::text::{is_white_space, lemma_inner_newline_lines, lemma_line_len, lemma_trim_fixed, lemma_trim_shape, line_len, strip_cr, chars_of, decimal, decimal_string, find_char, first_index_of, lines, push_char, split_lines, string_from_chars, trim, trim_chars, views, lemma_trim_idempotent};

verus! {

broadcast use vstd::string::group_string_axioms;

/// Why a quoted description in the descriptions file was refused.
#[derive(Debug, Clone, Copy, PartialEq, Eq)]
pub enum QuotedError {
    NotQuoted,
    UnsupportedEscape(char),
    UnfinishedEscape,
}

/// Why the descriptions file was refused.
#[derive(Debug)]
pub enum DescriptionsFileError {
    /// The line (counted from 1) has no `=`.
    MissingSeparator(usize),
    InvalidName(usize, NameError),
    InvalidDescription(usize, QuotedError),
    Description(DescriptionError),
    Duplicate(String),
}

pub enum DescriptionsFileErrorView {
    MissingSeparator(nat),
    InvalidName(nat, NameError),
    InvalidDescription(nat, QuotedError),
    Description(DescriptionError),
    Duplicate(Seq<char>),
}

impl View for DescriptionsFileError {
    type V = DescriptionsFileErrorView;

    open spec fn view(&self) -> DescriptionsFileErrorView {
        match self {
            DescriptionsFileError::MissingSeparator(n) => DescriptionsFileErrorView::MissingSeparator(
                *n as nat,
            ),
            DescriptionsFileError::InvalidName(n, e) => DescriptionsFileErrorView::InvalidName(
                *n as nat,
                *e,
            ),
            DescriptionsFileError::InvalidDescription(n, e) =>
                DescriptionsFileErrorView::InvalidDescription(*n as nat, *e),
            DescriptionsFileError::Description(e) => DescriptionsFileErrorView::Description(*e),
            DescriptionsFileError::Duplicate(s) => DescriptionsFileErrorView::Duplicate(s@),
        }
    }
}

impl QuotedError {
    pub open spec fn spec_message(self) -> Seq<char> {
        match self {
            QuotedError::NotQuoted => "description must be a quoted string"@,
            QuotedError::UnsupportedEscape(c) => "unsupported escape sequence \\"@.push(c),
            QuotedError::UnfinishedEscape => "description cannot end with an unfinished escape"@,
        }
    }

    pub fn message(&self) -> (r: String)
        ensures
            r@ == self.spec_message(),
    {
        match self {
            QuotedError::NotQuoted => String::from_str("description must be a quoted string"),
            QuotedError::UnsupportedEscape(c) => {
                let mut s = String::from_str("unsupported escape sequence \\");
                crate::text::push_char(&mut s, *c);
                s
            },
            QuotedError::UnfinishedEscape => String::from_str(
                "description cannot end with an unfinished escape",
            ),
        }
    }
}

impl DescriptionsFileErrorView {
    pub open spec fn spec_message(self) -> Seq<char> {
        match self {
            DescriptionsFileErrorView::MissingSeparator(n) => "line "@ + decimal(n)
                + " must be formatted as name = \"description\""@,
            DescriptionsFileErrorView::InvalidName(n, e) => "invalid profile name on line "@
                + decimal(n) + ": "@ + e.spec_message(),
            DescriptionsFileErrorView::InvalidDescription(n, e) => "invalid description on line "@
                + decimal(n) + ": "@ + e.spec_message(),
            DescriptionsFileErrorView::Description(e) => e.spec_message(),
            DescriptionsFileErrorView::Duplicate(name) => "duplicate profile description for "@
                + name,
        }
    }
}

impl DescriptionsFileError {
    pub fn duplicate(&self) -> (r: DescriptionsFileError)
        ensures
            r@ == self@,
    {
        match self {
            DescriptionsFileError::MissingSeparator(n) => DescriptionsFileError::MissingSeparator(*n),
            DescriptionsFileError::InvalidName(n, e) => DescriptionsFileError::InvalidName(*n, *e),
            DescriptionsFileError::InvalidDescription(n, e) => DescriptionsFileError::InvalidDescription(*n, *e),
            DescriptionsFileError::Description(e) => DescriptionsFileError::Description(*e),
            DescriptionsFileError::Duplicate(s) => DescriptionsFileError::Duplicate(s.clone()),
        }
    }

    pub fn message(&self) -> (r: String)
        ensures
            r@ == self@.spec_message(),
    {
        match self {
            DescriptionsFileError::MissingSeparator(n) => {
                let s = String::from_str("line ");
                let s = s.concat(decimal_string(*n).as_str());
                s.concat(" must be formatted as name = \"description\"")
            },
            DescriptionsFileError::InvalidName(n, e) => {
                let s = String::from_str("invalid profile name on line ");
                let s = s.concat(decimal_string(*n).as_str());
                let s = s.concat(": ");
                s.concat(e.message().as_str())
            },
            DescriptionsFileError::InvalidDescription(n, e) => {
                let s = String::from_str("invalid description on line ");
                let s = s.concat(decimal_string(*n).as_str());
                let s = s.concat(": ");
                s.concat(e.message().as_str())
            },
            DescriptionsFileError::Description(e) => e.message(),
            DescriptionsFileError::Duplicate(name) => {
                let s = String::from_str("duplicate profile description for ");
                s.concat(name.as_str())
            },
        }
    }
}

/// One line of the descriptions file.
#[derive(Debug)]
pub struct DescriptionEntry {
    pub name: String,
    pub description: String,
}

/// An entry as a pair of character sequences.
pub type EntryView = (Seq<char>, Seq<char>);

impl DescriptionEntry {
    pub open spec fn pair(self) -> EntryView {
        (self.name@, self.description@)
    }

    pub fn duplicate(&self) -> (r: DescriptionEntry)
        ensures
            r.pair() == self.pair(),
    {
        DescriptionEntry { name: self.name.clone(), description: self.description.clone() }
    }
}

/// Names strictly increase along the table.
pub open spec fn keys_increasing(s: Seq<EntryView>) -> bool {
    forall|i: int, j: int| 0 <= i < j < s.len() ==> lex_lt(#[trigger] s[i].0, #[trigger] s[j].0)
}

/// A name that passes the name rules and a description that
/// `parse_description` returns unchanged.
pub open spec fn entry_valid(e: EntryView) -> bool {
    is_valid_name(e.0) && description_of(e.1) == Ok::<Seq<char>, crate::names::DescriptionError>(e.1)
}

/// What every table satisfies.
pub open spec fn valid_table(s: Seq<EntryView>) -> bool {
    &&& keys_increasing(s)
    &&& forall|i: int| 0 <= i < s.len() ==> entry_valid(#[trigger] s[i])
}

/// The description stored for `name`.
pub open spec fn table_get(s: Seq<EntryView>, name: Seq<char>) -> Option<Seq<char>>
    decreases s.len(),
{
    if s.len() == 0 {
        None
    } else if s[0].0 == name {
        Some(s[0].1)
    } else {
        table_get(s.drop_first(), name)
    }
}

/// `s` with `name` mapped to `description`, keeping names in order.
pub open spec fn sorted_insert(s: Seq<EntryView>, name: Seq<char>, description: Seq<char>) -> Seq<EntryView>
    decreases s.len(),
{
    if s.len() == 0 {
        seq![(name, description)]
    } else if s[0].0 == name {
        seq![(name, description)] + s.drop_first()
    } else if lex_lt(name, s[0].0) {
        seq![(name, description)] + s
    } else {
        seq![s[0]] + sorted_insert(s.drop_first(), name, description)
    }
}

/// `s` without the entry for `name`.
pub open spec fn remove_key(s: Seq<EntryView>, name: Seq<char>) -> Seq<EntryView>
    decreases s.len(),
{
    if s.len() == 0 {
        s
    } else if s[0].0 == name {
        remove_key(s.drop_first(), name)
    } else {
        seq![s[0]] + remove_key(s.drop_first(), name)
    }
}

pub proof fn lemma_table_get_index(s: Seq<EntryView>, name: Seq<char>, i: int)
    requires
        keys_increasing(s),
        0 <= i < s.len(),
        s[i].0 == name,
    ensures
        table_get(s, name) == Some(s[i].1),
    decreases s.len(),
{
    if i > 0 {
        if s[0].0 == name {
            assert(lex_lt(s[0].0, s[i].0));
            lemma_lex_irreflexive(name);
        }
        lemma_table_get_index(s.drop_first(), name, i - 1);
    }
}

pub proof fn lemma_table_get_none(s: Seq<EntryView>, name: Seq<char>)
    requires
        forall|i: int| 0 <= i < s.len() ==> (#[trigger] s[i]).0 != name,
    ensures
        table_get(s, name) is None,
    decreases s.len(),
{
    if s.len() > 0 {
        assert(s[0].0 != name);
        lemma_table_get_none(s.drop_first(), name);
    }
}

/// `sorted_insert` written out at the position where the new name belongs.
proof fn lemma_sorted_insert_at(s: Seq<EntryView>, name: Seq<char>, description: Seq<char>, p: int)
    requires
        keys_increasing(s),
        0 <= p <= s.len(),
        forall|i: int| 0 <= i < p ==> lex_lt(#[trigger] s[i].0, name),
        p < s.len() ==> !lex_lt(s[p].0, name),
    ensures
        p < s.len() && s[p].0 == name ==> sorted_insert(s, name, description) == s.take(p)
            + seq![(name, description)] + s.skip(p + 1),
        !(p < s.len() && s[p].0 == name) ==> sorted_insert(s, name, description) == s.take(p)
            + seq![(name, description)] + s.skip(p),
    decreases p,
{
    if p == 0 {
        if s.len() > 0 && s[0].0 != name {
            lemma_lex_total(s[0].0, name);
        }
        assert(s.take(0) + seq![(name, description)] + s.skip(1) =~= seq![(name, description)]
            + s.drop_first());
        assert(s.take(0) + seq![(name, description)] + s.skip(0) =~= seq![(name, description)]
            + s);
    } else {
        let t = s.drop_first();
        assert(lex_lt(s[0].0, name));
        if s[0].0 == name {
            lemma_lex_irreflexive(name);
        }
        lemma_lex_asymmetric(s[0].0, name);
        assert forall|i: int, j: int| 0 <= i < j < t.len() implies lex_lt(
            #[trigger] t[i].0,
            #[trigger] t[j].0,
        ) by {
            assert(lex_lt(s[i + 1].0, s[j + 1].0));
        }
        assert forall|i: int| 0 <= i < p - 1 implies lex_lt(#[trigger] t[i].0, name) by {
            assert(lex_lt(s[i + 1].0, name));
        }
        lemma_sorted_insert_at(t, name, description, p - 1);
        assert(sorted_insert(s, name, description) == seq![s[0]] + sorted_insert(t, name, description));
        assert(s.take(p) =~= seq![s[0]] + t.take(p - 1));
        assert(s.skip(p) =~= t.skip(p - 1));
        if p < s.len() {
            assert(s.skip(p + 1) =~= t.skip(p));
            assert(seq![s[0]] + (t.take(p - 1) + seq![(name, description)] + t.skip(p)) =~= s.take(p)
                + seq![(name, description)] + s.skip(p + 1));
        }
        assert(seq![s[0]] + (t.take(p - 1) + seq![(name, description)] + t.skip(p - 1)) =~= s.take(
            p,
        ) + seq![(name, description)] + s.skip(p));
    }
}

pub proof fn lemma_sorted_insert_valid(s: Seq<EntryView>, name: Seq<char>, description: Seq<char>)
    requires
        valid_table(s),
        entry_valid((name, description)),
    ensures
        valid_table(sorted_insert(s, name, description)),
        table_get(sorted_insert(s, name, description), name) == Some(description),
    decreases s.len(),
{
    let r = sorted_insert(s, name, description);
    if s.len() == 0 {
    } else if s[0].0 == name {
        assert forall|i: int, j: int| 0 <= i < j < r.len() implies lex_lt(
            #[trigger] r[i].0,
            #[trigger] r[j].0,
        ) by {
            assert(lex_lt(s[i].0, s[j].0));
        }
        assert forall|i: int| 0 <= i < r.len() implies entry_valid(#[trigger] r[i]) by {
            if i > 0 {
                assert(r[i] == s[i]);
            }
        }
    } else if lex_lt(name, s[0].0) {
        assert forall|i: int, j: int| 0 <= i < j < r.len() implies lex_lt(
            #[trigger] r[i].0,
            #[trigger] r[j].0,
        ) by {
            if i == 0 {
                if j > 1 {
                    assert(lex_lt(s[0].0, s[j - 1].0));
                    lemma_lex_transitive(name, s[0].0, s[j - 1].0);
                }
            } else {
                assert(lex_lt(s[i - 1].0, s[j - 1].0));
            }
        }
        assert forall|i: int| 0 <= i < r.len() implies entry_valid(#[trigger] r[i]) by {
            if i > 0 {
                assert(r[i] == s[i - 1]);
            }
        }
    } else {
        let t = s.drop_first();
        assert forall|i: int, j: int| 0 <= i < j < t.len() implies lex_lt(
            #[trigger] t[i].0,
            #[trigger] t[j].0,
        ) by {
            assert(lex_lt(s[i + 1].0, s[j + 1].0));
        }
        assert forall|i: int| 0 <= i < t.len() implies entry_valid(#[trigger] t[i]) by {
            assert(t[i] == s[i + 1]);
        }
        lemma_sorted_insert_valid(t, name, description);
        lemma_sorted_insert_keys(t, name, description);
        lemma_lex_total(s[0].0, name);
        let u = sorted_insert(t, name, description);
        assert forall|i: int, j: int| 0 <= i < j < r.len() implies lex_lt(
            #[trigger] r[i].0,
            #[trigger] r[j].0,
        ) by {
            if i == 0 {
                let k = u[j - 1].0;
                if k != name {
                    let m = choose|m: int| 0 <= m < t.len() && t[m].0 == k;
                    assert(lex_lt(s[0].0, s[m + 1].0));
                }
            } else {
                assert(lex_lt(u[i - 1].0, u[j - 1].0));
            }
        }
        assert forall|i: int| 0 <= i < r.len() implies entry_valid(#[trigger] r[i]) by {
            if i > 0 {
                assert(r[i] == u[i - 1]);
            }
        }
        assert(r.drop_first() =~= u);
        assert(table_get(r, name) == table_get(u, name));
    }
}

/// Every name in `sorted_insert(s, name, _)` is `name` or a name of `s`.
pub proof fn lemma_sorted_insert_keys(s: Seq<EntryView>, name: Seq<char>, description: Seq<char>)
    ensures
        forall|i: int|
            0 <= i < sorted_insert(s, name, description).len() ==> (#[trigger] sorted_insert(
                s,
                name,
                description,
            )[i]).0 == name || exists|m: int| 0 <= m < s.len() && s[m].0 == sorted_insert(
                s,
                name,
                description,
            )[i].0,
    decreases s.len(),
{
    let r = sorted_insert(s, name, description);
    if s.len() == 0 {
    } else if s[0].0 == name {
        assert forall|i: int| 0 <= i < r.len() implies (#[trigger] r[i]).0 == name || exists|m: int|
            0 <= m < s.len() && s[m].0 == r[i].0 by {
            if i > 0 {
                assert(s[i].0 == r[i].0);
            }
        }
    } else if lex_lt(name, s[0].0) {
        assert forall|i: int| 0 <= i < r.len() implies (#[trigger] r[i]).0 == name || exists|m: int|
            0 <= m < s.len() && s[m].0 == r[i].0 by {
            if i > 0 {
                assert(s[i - 1].0 == r[i].0);
            }
        }
    } else {
        let t = s.drop_first();
        lemma_sorted_insert_keys(t, name, description);
        let u = sorted_insert(t, name, description);
        assert forall|i: int| 0 <= i < r.len() implies (#[trigger] r[i]).0 == name || exists|m: int|
            0 <= m < s.len() && s[m].0 == r[i].0 by {
            if i == 0 {
                assert(s[0].0 == r[0].0);
            } else {
                assert(r[i] == u[i - 1]);
                if u[i - 1].0 != name {
                    let m = choose|m: int| 0 <= m < t.len() && t[m].0 == u[i - 1].0;
                    assert(s[m + 1].0 == r[i].0);
                }
            }
        }
    }
}

pub proof fn lemma_sorted_insert_get(s: Seq<EntryView>, name: Seq<char>, description: Seq<char>, other: Seq<char>)
    requires
        other != name,
    ensures
        table_get(sorted_insert(s, name, description), other) == table_get(s, other),
    decreases s.len(),
{
    let r = sorted_insert(s, name, description);
    if s.len() == 0 {
        assert(r.drop_first() =~= s);
    } else if s[0].0 == name {
        assert(r.drop_first() =~= s.drop_first());
    } else if lex_lt(name, s[0].0) {
        assert(r.drop_first() =~= s);
    } else {
        lemma_sorted_insert_get(s.drop_first(), name, description, other);
        assert(r.drop_first() =~= sorted_insert(s.drop_first(), name, description));
    }
}

pub proof fn lemma_remove_key_get(s: Seq<EntryView>, name: Seq<char>, other: Seq<char>)
    ensures
        table_get(remove_key(s, name), other) == if other == name {
            None
        } else {
            table_get(s, other)
        },
    decreases s.len(),
{
    if s.len() > 0 {
        lemma_remove_key_get(s.drop_first(), name, other);
        let r = remove_key(s, name);
        if s[0].0 != name {
            assert(r.drop_first() =~= remove_key(s.drop_first(), name));
        }
    }
}

/// Every entry of `remove_key(s, name)` is an entry of `s` found at or after
/// `i` when the result is taken from position `i`; stated here for the head.
proof fn lemma_remove_key_members(s: Seq<EntryView>, name: Seq<char>)
    ensures
        forall|i: int|
            0 <= i < remove_key(s, name).len() ==> exists|m: int|
                0 <= m < s.len() && s[m] == #[trigger] remove_key(s, name)[i],
    decreases s.len(),
{
    if s.len() > 0 {
        let t = s.drop_first();
        lemma_remove_key_members(t, name);
        let r = remove_key(s, name);
        let u = remove_key(t, name);
        assert forall|i: int| 0 <= i < r.len() implies exists|m: int|
            0 <= m < s.len() && s[m] == #[trigger] r[i] by {
            if s[0].0 == name {
                let m = choose|m: int| 0 <= m < t.len() && t[m] == u[i];
                assert(s[m + 1] == r[i]);
            } else if i == 0 {
                assert(s[0] == r[0]);
            } else {
                let m = choose|m: int| 0 <= m < t.len() && t[m] == u[i - 1];
                assert(s[m + 1] == r[i]);
            }
        }
    }
}

pub proof fn lemma_remove_key_valid(s: Seq<EntryView>, name: Seq<char>)
    requires
        valid_table(s),
    ensures
        valid_table(remove_key(s, name)),
    decreases s.len(),
{
    if s.len() > 0 {
        let t = s.drop_first();
        assert forall|i: int, j: int| 0 <= i < j < t.len() implies lex_lt(
            #[trigger] t[i].0,
            #[trigger] t[j].0,
        ) by {
            assert(lex_lt(s[i + 1].0, s[j + 1].0));
        }
        assert forall|i: int| 0 <= i < t.len() implies entry_valid(#[trigger] t[i]) by {
            assert(t[i] == s[i + 1]);
        }
        lemma_remove_key_valid(t, name);
        lemma_remove_key_members(t, name);
        let u = remove_key(t, name);
        let r = remove_key(s, name);
        if s[0].0 != name {
            assert forall|i: int, j: int| 0 <= i < j < r.len() implies lex_lt(
                #[trigger] r[i].0,
                #[trigger] r[j].0,
            ) by {
                if i == 0 {
                    let m = choose|m: int| 0 <= m < t.len() && t[m] == u[j - 1];
                    assert(lex_lt(s[0].0, s[m + 1].0));
                } else {
                    assert(lex_lt(u[i - 1].0, u[j - 1].0));
                }
            }
            assert forall|i: int| 0 <= i < r.len() implies entry_valid(#[trigger] r[i]) by {
                if i > 0 {
                    assert(r[i] == u[i - 1]);
                }
            }
        }
    }
}

/// The profile descriptions, sorted by name, each valid.
#[derive(Debug)]
pub struct DescriptionTable {
    entries: Vec<DescriptionEntry>,
}

impl View for DescriptionTable {
    type V = Seq<EntryView>;

    closed spec fn view(&self) -> Seq<EntryView> {
        self.entries@.map_values(|e: DescriptionEntry| e.pair())
    }
}

impl DescriptionTable {
    #[verifier::type_invariant]
    spec fn inv(self) -> bool {
        valid_table(self@)
    }

    /// The empty table.
    pub fn new() -> (r: DescriptionTable)
        ensures
            r@ == Seq::<EntryView>::empty(),
    {
        let r = DescriptionTable { entries: Vec::new() };
        assert(r@ =~= Seq::<EntryView>::empty());
        r
    }

    /// Every table is sorted and holds only valid entries.
    pub fn check_valid(&self)
        ensures
            valid_table(self@),
    {
        proof {
            use_type_invariant(self);
        }
    }

    pub fn len(&self) -> (n: usize)
        ensures
            n == self@.len(),
    {
        self.entries.len()
    }

    /// The entry at position `i`.
    pub fn entry(&self, i: usize) -> (e: &DescriptionEntry)
        requires
            i < self@.len(),
        ensures
            e.pair() == self@[i as int],
    {
        &self.entries[i]
    }

    /// Position of `name` in the table, if present.
    pub fn find(&self, name: &[char]) -> (r: Option<usize>)
        ensures
            r matches Some(i) ==> i < self@.len() && self@[i as int].0 == name@ && table_get(
                self@,
                name@,
            ) == Some(self@[i as int].1),
            r is None ==> table_get(self@, name@) is None,
    {
        proof {
            use_type_invariant(self);
        }
        let mut i: usize = 0;
        while i < self.entries.len()
            invariant
                i <= self@.len(),
                self@.len() == self.entries@.len(),
                keys_increasing(self@),
                forall|k: int| 0 <= k < i ==> (#[trigger] self@[k]).0 != name@,
            decreases self@.len() - i,
        {
            let key = chars_of(self.entries[i].name.as_str());
            assert(self@[i as int] == self.entries@[i as int].pair());
            if key.len() == name.len() && !chars_lt(key.as_slice(), name) && !chars_lt(name, key.as_slice()) {
                proof {
                    if key@ != name@ {
                        lemma_lex_total(key@, name@);
                    }
                    lemma_table_get_index(self@, name@, i as int);
                }
                return Some(i);
            }
            proof {
                if key@ == name@ {
                    lemma_lex_irreflexive(key@);
                }
            }
            i = i + 1;
        }
        proof {
            lemma_table_get_none(self@, name@);
        }
        None
    }

    /// The table with `name` mapped to `description`.
    pub fn insert(self, name: String, description: String) -> (r: DescriptionTable)
        requires
            entry_valid((name@, description@)),
        ensures
            r@ == sorted_insert(self@, name@, description@),
    {
        proof {
            use_type_invariant(&self);
        }
        let ghost s = self@;
        let key = chars_of(name.as_str());
        let DescriptionTable { entries: mut entries } = self;
        assert(entries@.map_values(|e: DescriptionEntry| e.pair()) == s);
        let mut p: usize = 0;
        while p < entries.len() && chars_lt(chars_of(entries[p].name.as_str()).as_slice(), key.as_slice())
            invariant
                p <= entries@.len() == s.len(),
                s == entries@.map_values(|e: DescriptionEntry| e.pair()),
                key@ == name@,
                forall|i: int| 0 <= i < p ==> lex_lt(#[trigger] s[i].0, name@),
            decreases s.len() - p,
        {
            assert(s[p as int] == entries@[p as int].pair());
            p = p + 1;
        }
        proof {
            if p < s.len() {
                assert(s[p as int] == entries@[p as int].pair());
            }
            lemma_sorted_insert_at(s, name@, description@, p as int);
            lemma_sorted_insert_valid(s, name@, description@);
        }
        let replace = p < entries.len() && {
            let k = chars_of(entries[p].name.as_str());
            k.len() == key.len() && !chars_lt(k.as_slice(), key.as_slice()) && !chars_lt(key.as_slice(), k.as_slice())
        };
        proof {
            if p < s.len() {
                assert(s[p as int] == entries@[p as int].pair());
                if s[p as int].0 != name@ {
                    lemma_lex_total(s[p as int].0, name@);
                } else {
                    lemma_lex_irreflexive(name@);
                }
            }
        }
        if replace {
            entries.remove(p);
        }
        let ghost nd = (name@, description@);
        entries.insert(p, DescriptionEntry { name, description });
        proof {
            if replace {
                assert(entries@.map_values(|e: DescriptionEntry| e.pair()) =~= s.take(p as int) + seq![nd] + s.skip(p + 1));
            } else {
                assert(entries@.map_values(|e: DescriptionEntry| e.pair()) =~= s.take(p as int) + seq![nd] + s.skip(p as int));
            }
        }
        DescriptionTable { entries }
    }

    /// The table without an entry for `name`.
    pub fn remove(self, name: &[char]) -> (r: DescriptionTable)
        ensures
            r@ == remove_key(self@, name@),
    {
        proof {
            use_type_invariant(&self);
            lemma_remove_key_valid(self@, name@);
        }
        let ghost s = self@;
        let DescriptionTable { entries } = self;
        let mut kept: Vec<DescriptionEntry> = Vec::new();
        let n = entries.len();
        assert(s.skip(0) =~= s);
        assert(kept@.map_values(|e: DescriptionEntry| e.pair()) + remove_key(s, name@) =~= remove_key(s, name@));
        let mut i: usize = 0;
        while i < n
            invariant
                i <= n == entries@.len() == s.len(),
                s == entries@.map_values(|e: DescriptionEntry| e.pair()),
                remove_key(s, name@) == kept@.map_values(|e: DescriptionEntry| e.pair())
                    + remove_key(s.skip(i as int), name@),
            decreases n - i,
        {
            let ghost rest = s.skip(i as int);
            assert(rest.drop_first() =~= s.skip(i + 1));
            assert(rest[0] == entries@[i as int].pair());
            let k = chars_of(entries[i].name.as_str());
            let same = k.len() == name.len() && !chars_lt(k.as_slice(), name) && !chars_lt(name, k.as_slice());
            proof {
                if k@ != name@ {
                    lemma_lex_total(k@, name@);
                } else {
                    lemma_lex_irreflexive(k@);
                }
            }
            if !same {
                let e = entries[i].duplicate();
                let ghost before = kept@.map_values(|e: DescriptionEntry| e.pair());
                kept.push(e);
                assert(kept@.map_values(|e: DescriptionEntry| e.pair()) =~= before + seq![rest[0]]);
                assert(remove_key(rest, name@) == seq![rest[0]] + remove_key(rest.drop_first(), name@));
                assert(before + (seq![rest[0]] + remove_key(s.skip(i + 1), name@)) =~= before + seq![rest[0]] + remove_key(s.skip(i + 1), name@));
            }
            i = i + 1;
        }
        assert(s.skip(n as int) =~= Seq::<EntryView>::empty());
        let r = DescriptionTable { entries: kept };
        assert(r@ =~= remove_key(s, name@));
        r
    }
}

/// How one character is written inside the quotes.
pub open spec fn escape_char(c: char) -> Seq<char> {
    if c == '\\' {
        seq!['\\', '\\']
    } else if c == '"' {
        seq!['\\', '"']
    } else {
        seq![c]
    }
}

/// A description as written inside the quotes: `\` and `"` preceded by `\`.
pub open spec fn escape(d: Seq<char>) -> Seq<char>
    decreases d.len(),
{
    if d.len() == 0 {
        Seq::empty()
    } else {
        escape_char(d[0]) + escape(d.drop_first())
    }
}

/// Escapes `\` and `"` in a description.
pub fn escape_description(description: &str) -> (r: String)
    ensures
        r@ == escape(description@),
{
    let d = chars_of(description);
    let mut out = String::new();
    let mut i: usize = 0;
    assert(d@.skip(0) =~= d@);
    while i < d.len()
        invariant
            i <= d@.len(),
            out@ + escape(d@.skip(i as int)) == escape(d@),
        decreases d@.len() - i,
    {
        let c = d[i];
        let ghost before = out@;
        assert(d@.skip(i as int).drop_first() =~= d@.skip(i + 1));
        assert(escape(d@.skip(i as int)) == escape_char(c) + escape(d@.skip(i + 1)));
        if c == '\\' {
            push_char(&mut out, '\\');
            push_char(&mut out, '\\');
        } else if c == '"' {
            push_char(&mut out, '\\');
            push_char(&mut out, '"');
        } else {
            push_char(&mut out, c);
        }
        assert(out@ =~= before + escape_char(c));
        assert(out@ + escape(d@.skip(i + 1)) =~= before + (escape_char(c) + escape(d@.skip(i + 1))));
        i = i + 1;
    }
    assert(d@.skip(i as int) =~= Seq::<char>::empty());
    assert(out@ + Seq::<char>::empty() =~= out@);
    out
}

/// `r` with `p` put in front of its text.
pub open spec fn prefixed(p: Seq<char>, r: Result<Seq<char>, QuotedError>) -> Result<Seq<char>, QuotedError> {
    match r {
        Ok(x) => Ok(p + x),
        Err(e) => Err(e),
    }
}

/// The character an escape sequence `\c` stands for.
pub open spec fn unescaped(c: char) -> Option<char> {
    if c == '"' {
        Some('"')
    } else if c == '\\' {
        Some('\\')
    } else if c == 'n' {
        Some('\n')
    } else if c == 'r' {
        Some('\r')
    } else if c == 't' {
        Some('\t')
    } else {
        None
    }
}

/// The text between the quotes with its escape sequences resolved;
/// `escaped` says that a `\` came just before `s`.
pub open spec fn unescape(s: Seq<char>, escaped: bool) -> Result<Seq<char>, QuotedError>
    decreases s.len(),
{
    if s.len() == 0 {
        if escaped {
            Err(QuotedError::UnfinishedEscape)
        } else {
            Ok(Seq::empty())
        }
    } else if escaped {
        match unescaped(s[0]) {
            None => Err(QuotedError::UnsupportedEscape(s[0])),
            Some(c) => prefixed(seq![c], unescape(s.drop_first(), false)),
        }
    } else if s[0] == '\\' {
        unescape(s.drop_first(), true)
    } else {
        prefixed(seq![s[0]], unescape(s.drop_first(), false))
    }
}

/// What `parse_quoted_description` gives for `v`.
pub open spec fn parse_quoted(v: Seq<char>) -> Result<Seq<char>, QuotedError> {
    if !(v.len() >= 2 && v[0] == '"' && v.last() == '"') {
        Err(QuotedError::NotQuoted)
    } else {
        unescape(v.subrange(1, v.len() - 1), false)
    }
}

proof fn lemma_prefixed_assoc(a: Seq<char>, b: Seq<char>, r: Result<Seq<char>, QuotedError>)
    ensures
        prefixed(a, prefixed(b, r)) == prefixed(a + b, r),
{
    if let Ok(x) = r {
        assert(a + (b + x) =~= (a + b) + x);
    }
}

fn unescape_chars(s: &[char]) -> (r: Result<String, QuotedError>)
    ensures
        r matches Ok(x) ==> unescape(s@, false) == Ok::<Seq<char>, QuotedError>(x@),
        r matches Err(e) ==> unescape(s@, false) == Err::<Seq<char>, QuotedError>(e),
{
    let mut out = String::new();
    let mut escaped = false;
    let mut i: usize = 0;
    assert(s@.skip(0) =~= s@);
    assert(Seq::<char>::empty() + Seq::<char>::empty() =~= Seq::<char>::empty());
    proof {
        match unescape(s@, false) {
            Ok(x) => { assert(Seq::<char>::empty() + x =~= x); },
            Err(_) => {},
        }
    }
    while i < s.len()
        invariant
            i <= s@.len(),
            unescape(s@, false) == prefixed(out@, unescape(s@.skip(i as int), escaped)),
        decreases s@.len() - i,
    {
        let c = s[i];
        let ghost rest = s@.skip(i as int);
        assert(rest.drop_first() =~= s@.skip(i + 1));
        let ghost before = out@;
        if escaped {
            let o = if c == '"' {
                '"'
            } else if c == '\\' {
                '\\'
            } else if c == 'n' {
                '\n'
            } else if c == 'r' {
                '\r'
            } else if c == 't' {
                '\t'
            } else {
                return Err(QuotedError::UnsupportedEscape(c));
            };
            push_char(&mut out, o);
            escaped = false;
            proof {
                lemma_prefixed_assoc(before, seq![o], unescape(s@.skip(i + 1), false));
                assert(before.push(o) =~= before + seq![o]);
            }
        } else if c == '\\' {
            escaped = true;
        } else {
            push_char(&mut out, c);
            proof {
                lemma_prefixed_assoc(before, seq![c], unescape(s@.skip(i + 1), false));
                assert(before.push(c) =~= before + seq![c]);
            }
        }
        i = i + 1;
    }
    assert(s@.skip(i as int) =~= Seq::<char>::empty());
    if escaped {
        return Err(QuotedError::UnfinishedEscape);
    }
    assert(out@ + Seq::<char>::empty() =~= out@);
    Ok(out)
}

/// The description inside a quoted value, with escapes resolved.
pub fn parse_quoted_description(value: &str) -> (r: Result<String, QuotedError>)
    ensures
        r matches Ok(x) ==> parse_quoted(value@) == Ok::<Seq<char>, QuotedError>(x@),
        r matches Err(e) ==> parse_quoted(value@) == Err::<Seq<char>, QuotedError>(e),
{
    let v = chars_of(value);
    parse_quoted_chars(v.as_slice())
}

fn parse_quoted_chars(v: &[char]) -> (r: Result<String, QuotedError>)
    ensures
        r matches Ok(x) ==> parse_quoted(v@) == Ok::<Seq<char>, QuotedError>(x@),
        r matches Err(e) ==> parse_quoted(v@) == Err::<Seq<char>, QuotedError>(e),
{
    let n = v.len();
    if !(n >= 2 && v[0] == '"' && v[n - 1] == '"') {
        return Err(QuotedError::NotQuoted);
    }
    let inner = &v[1..n - 1];
    assert(inner@ =~= v@.subrange(1, n - 1));
    unescape_chars(inner)
}

/// One line of the descriptions file, without its line ending.
pub open spec fn entry_line(e: EntryView) -> Seq<char> {
    e.0 + seq![' ', '=', ' ', '"'] + escape(e.1) + seq!['"']
}

/// The descriptions file for a table.
pub open spec fn render(s: Seq<EntryView>) -> Seq<char>
    decreases s.len(),
{
    if s.len() == 0 {
        Seq::empty()
    } else {
        entry_line(s[0]) + seq!['\n'] + render(s.drop_first())
    }
}

/// The outcome of reading the lines `ls`, the first of which is line
/// `line_no`, into the table `acc`.
pub open spec fn parse_lines(ls: Seq<Seq<char>>, line_no: nat, acc: Seq<EntryView>) -> Result<
    Seq<EntryView>,
    DescriptionsFileErrorView,
>
    decreases ls.len(),
{
    if ls.len() == 0 {
        Ok(acc)
    } else {
        let line = trim(ls[0]);
        if line.len() == 0 || line[0] == '#' {
            parse_lines(ls.drop_first(), line_no + 1, acc)
        } else {
            match first_index_of(line, '=') {
                None => Err(DescriptionsFileErrorView::MissingSeparator(line_no)),
                Some(k) => {
                    let name = trim(line.take(k));
                    match check_name(name) {
                        Err(e) => Err(DescriptionsFileErrorView::InvalidName(line_no, e)),
                        Ok(_) => match parse_quoted(trim(line.skip(k + 1))) {
                            Err(e) => Err(DescriptionsFileErrorView::InvalidDescription(line_no, e)),
                            Ok(d) => match description_of(d) {
                                Err(e) => Err(DescriptionsFileErrorView::Description(e)),
                                Ok(d2) => if table_get(acc, name) is Some {
                                    Err(DescriptionsFileErrorView::Duplicate(name))
                                } else {
                                    parse_lines(ls.drop_first(), line_no + 1, sorted_insert(acc, name, d2))
                                },
                            },
                        },
                    }
                },
            }
        }
    }
}

/// The outcome of reading a descriptions file.
pub open spec fn parse_descriptions(contents: Seq<char>) -> Result<Seq<EntryView>, DescriptionsFileErrorView> {
    parse_lines(lines(contents), 1, Seq::empty())
}

impl DescriptionTable {
    /// The descriptions file that holds this table.
    pub fn render(&self) -> (r: String)
        ensures
            r@ == render(self@),
    {
        let n = self.entries.len();
        let mut out = String::new();
        let mut i: usize = 0;
        assert(self@.skip(0) =~= self@);
        assert(Seq::<char>::empty() + render(self@) =~= render(self@));
        while i < n
            invariant
                i <= n == self@.len() == self.entries@.len(),
                out@ + render(self@.skip(i as int)) == render(self@),
            decreases n - i,
        {
            let e = &self.entries[i];
            assert(self@[i as int] == e.pair());
            let ghost rest = self@.skip(i as int);
            assert(rest.drop_first() =~= self@.skip(i + 1));
            let ghost before = out@;
            let escaped = escape_description(e.description.as_str());
            out.append(e.name.as_str());
            push_char(&mut out, ' ');
            push_char(&mut out, '=');
            push_char(&mut out, ' ');
            push_char(&mut out, '"');
            out.append(escaped.as_str());
            push_char(&mut out, '"');
            push_char(&mut out, '\n');
            assert(out@ =~= before + (entry_line(rest[0]) + seq!['\n']));
            assert(out@ + render(self@.skip(i + 1)) =~= before + render(rest));
            i = i + 1;
        }
        assert(self@.skip(n as int) =~= Seq::<EntryView>::empty());
        assert(out@ + Seq::<char>::empty() =~= out@);
        out
    }
}

/// Reads the descriptions file.
pub fn parse_descriptions_file(contents: &str) -> (r: Result<DescriptionTable, DescriptionsFileError>)
    ensures
        r matches Ok(t) ==> parse_descriptions(contents@) == Ok::<Seq<EntryView>, DescriptionsFileErrorView>(t@),
        r matches Err(e) ==> parse_descriptions(contents@) == Err::<Seq<EntryView>, DescriptionsFileErrorView>(e@),
{
    let chars = chars_of(contents);
    let ls = split_lines(chars.as_slice());
    let ghost all = views(ls@);
    let mut table = DescriptionTable::new();
    let n = ls.len();
    let mut i: usize = 0;
    assert(all.skip(0) =~= all);
    while i < n
        invariant
            i <= n == ls@.len() == all.len(),
            all == views(ls@),
            parse_descriptions(contents@) == parse_lines(all.skip(i as int), (i + 1) as nat, table@),
        decreases n - i,
    {
        let ghost rest = all.skip(i as int);
        assert(rest.drop_first() =~= all.skip(i + 1));
        assert(rest[0] == ls@[i as int]@);
        let line = trim_chars(ls[i].as_slice());
        let line_no = i + 1;
        if line.len() == 0 || line[0] == '#' {
            i = i + 1;
            continue;
        }
        let eq = match find_char(line.as_slice(), '=') {
            None => {
                return Err(DescriptionsFileError::MissingSeparator(line_no));
            },
            Some(k) => k,
        };
        let before = &line.as_slice()[0..eq];
        assert(before@ =~= line@.take(eq as int));
        let name = trim_chars(before);
        if let Err(e) = crate::names::check_name_chars(name.as_slice()) {
            return Err(DescriptionsFileError::InvalidName(line_no, e));
        }
        let after = &line.as_slice()[eq + 1..line.len()];
        assert(after@ =~= line@.skip(eq + 1));
        let value = trim_chars(after);
        let quoted = match parse_quoted_chars(value.as_slice()) {
            Err(e) => {
                return Err(DescriptionsFileError::InvalidDescription(line_no, e));
            },
            Ok(q) => q,
        };
        let description = match crate::profile::parse_description(quoted.as_str()) {
            Err(e) => {
                return Err(DescriptionsFileError::Description(e));
            },
            Ok(d) => d,
        };
        if table.find(name.as_slice()).is_some() {
            return Err(DescriptionsFileError::Duplicate(string_from_chars(name.as_slice())));
        }
        proof {
            lemma_trim_idempotent(quoted@);
        }
        let name_string = string_from_chars(name.as_slice());
        table = table.insert(name_string, description);
        i = i + 1;
    }
    assert(all.skip(n as int) =~= Seq::<Seq<char>>::empty());
    Ok(table)
}

/// A valid description is a single line that neither starts nor ends with
/// white space.
pub proof fn lemma_valid_description_shape(d: Seq<char>)
    requires
        description_of(d) == Ok::<Seq<char>, DescriptionError>(d),
    ensures
        d.len() > 0,
        !is_white_space(d[0]),
        !is_white_space(d.last()),
        forall|i: int| 0 <= i < d.len() ==> d[i] != '\n',
{
    lemma_trim_shape(d);
    assert forall|i: int| 0 <= i < d.len() implies d[i] != '\n' by {
        if d[i] == '\n' {
            assert(is_white_space(d[i]));
            if i < d.len() - 1 {
                lemma_inner_newline_lines(d, i);
            }
        }
    }
}

proof fn lemma_escape_no_newline(d: Seq<char>)
    requires
        forall|i: int| 0 <= i < d.len() ==> d[i] != '\n',
    ensures
        forall|i: int| 0 <= i < escape(d).len() ==> escape(d)[i] != '\n',
    decreases d.len(),
{
    if d.len() > 0 {
        lemma_escape_no_newline(d.drop_first());
        let e = escape(d);
        let h = escape_char(d[0]);
        assert forall|i: int| 0 <= i < e.len() implies e[i] != '\n' by {
            if i >= h.len() {
                assert(e[i] == escape(d.drop_first())[i - h.len()]);
            }
        }
    }
}

/// Resolving the escapes of an escaped description gives it back.
pub proof fn lemma_unescape_escape(d: Seq<char>)
    ensures
        unescape(escape(d), false) == Ok::<Seq<char>, QuotedError>(d),
    decreases d.len(),
{
    if d.len() > 0 {
        let rest = d.drop_first();
        lemma_unescape_escape(rest);
        let e = escape(d);
        let c = d[0];
        if c == '\\' || c == '"' {
            assert(e.drop_first() =~= seq![c] + escape(rest));
            assert(e.drop_first().drop_first() =~= escape(rest));
            assert(e[0] == '\\');
            assert(unescape(e, false) == unescape(e.drop_first(), true));
            assert(e.drop_first()[0] == c);
            assert(unescaped(c) == Some(c));
            assert(unescape(e.drop_first(), true) == prefixed(seq![c], unescape(escape(rest), false)));
        } else {
            assert(e.drop_first() =~= escape(rest));
            assert(e[0] == c);
            assert(unescape(e, false) == prefixed(seq![c], unescape(escape(rest), false)));
        }
        assert(seq![c] + rest =~= d);
    } else {
        assert(escape(d) =~= Seq::<char>::empty());
        assert(d =~= Seq::<char>::empty());
    }
}

proof fn lemma_entry_line_no_newline(e: EntryView)
    requires
        entry_valid(e),
    ensures
        forall|i: int| 0 <= i < entry_line(e).len() ==> entry_line(e)[i] != '\n',
        entry_line(e).len() > 0,
        entry_line(e).last() == '"',
{
    lemma_valid_description_shape(e.1);
    lemma_escape_no_newline(e.1);
    let l = entry_line(e);
    let n = e.0.len();
    let m = escape(e.1).len();
    assert forall|i: int| 0 <= i < l.len() implies l[i] != '\n' by {
        if i < n {
            assert(l[i] == e.0[i]);
            assert(is_name_char(e.0[i]));
        } else if n + 4 <= i < n + 4 + m {
            assert(l[i] == escape(e.1)[i - n - 4]);
        }
    }
}

/// The lines of a rendered table are its entry lines.
pub proof fn lemma_render_lines(t: Seq<EntryView>)
    requires
        forall|i: int| 0 <= i < t.len() ==> entry_valid(#[trigger] t[i]),
    ensures
        lines(render(t)) == t.map_values(|e: EntryView| entry_line(e)),
    decreases t.len(),
{
    if t.len() == 0 {
        assert(render(t) =~= Seq::<char>::empty());
        assert(t.map_values(|e: EntryView| entry_line(e)) =~= Seq::<Seq<char>>::empty());
    } else {
        let rest = t.drop_first();
        assert forall|i: int| 0 <= i < rest.len() implies entry_valid(#[trigger] rest[i]) by {
            assert(rest[i] == t[i + 1]);
        }
        lemma_render_lines(rest);
        let l = entry_line(t[0]);
        lemma_entry_line_no_newline(t[0]);
        let s = render(t);
        assert(s == l + seq!['\n'] + render(rest));
        lemma_line_len(s, l.len() as int);
        assert(s.take(l.len() as int) =~= l);
        assert(strip_cr(l) == l);
        assert(s.skip(l.len() as int + 1) =~= render(rest));
        assert(t.map_values(|e: EntryView| entry_line(e)) =~= seq![l] + rest.map_values(
            |e: EntryView| entry_line(e),
        ));
    }
}

/// Reading the line written for a valid entry gives the entry back.
proof fn lemma_parse_entry_line(e: EntryView)
    requires
        entry_valid(e),
    ensures
        trim(entry_line(e)) == entry_line(e),
        entry_line(e).len() > 0,
        entry_line(e)[0] != '#',
        first_index_of(entry_line(e), '=') == Some(e.0.len() as int + 1),
        trim(entry_line(e).take(e.0.len() as int + 1)) == e.0,
        parse_quoted(trim(entry_line(e).skip(e.0.len() as int + 2))) == Ok::<Seq<char>, QuotedError>(e.1),
{
    let name = e.0;
    let n = name.len() as int;
    let l = entry_line(e);
    let esc = escape(e.1);
    assert(n > 0);
    assert(is_name_char(name[0]));
    assert(is_name_char(name.last()));
    assert(l[0] == name[0]);
    lemma_entry_line_no_newline(e);
    lemma_trim_fixed(l);
    // the first `=` is the one after the name and a space
    assert(l[n] == ' ');
    assert(l[n + 1] == '=');
    assert forall|i: int| 0 <= i < n implies l[i] != '=' by {
        assert(l[i] == name[i]);
        assert(is_name_char(name[i]));
    }
    let j = choose|j: int| 0 <= j < l.len() && l[j] == '=' && forall|k: int| 0 <= k < j ==> l[k] != '=';
    assert(0 <= n + 1 < l.len() && l[n + 1] == '=' && forall|k: int| 0 <= k < n + 1 ==> l[k] != '=');
    if j < n + 1 {
        assert(l[j] != '=');
    }
    if j > n + 1 {
        assert(l[n + 1] != '=');
    }
    // the name part
    let before = l.take(n + 1);
    assert(before =~= name.push(' '));
    assert(trim_start_is_whole(before)) by {
        assert(!is_white_space(before[0]));
    }
    assert(before.drop_last() =~= name);
    assert(crate::text::trim_end(name) == name);
    assert(crate::text::trim_end(before) == name);
    // the quoted part
    let after = l.skip(n + 2);
    assert(after =~= seq![' ', '"'] + esc + seq!['"']);
    let quoted = seq!['"'] + esc + seq!['"'];
    assert(after.drop_first() =~= quoted);
    assert(crate::text::trim_start(after) == crate::text::trim_start(quoted));
    lemma_trim_fixed(quoted);
    assert(crate::text::trim_start(quoted) == quoted) by {
        assert(!is_white_space(quoted[0]));
    }
    assert(crate::text::trim_end(quoted) == quoted) by {
        assert(!is_white_space(quoted.last()));
    }
    assert(quoted.subrange(1, quoted.len() - 1) =~= esc);
    lemma_unescape_escape(e.1);
}

spec fn trim_start_is_whole(s: Seq<char>) -> bool {
    crate::text::trim_start(s) == s
}

proof fn lemma_parse_rendered_lines(t: Seq<EntryView>, i: int)
    requires
        valid_table(t),
        0 <= i <= t.len(),
    ensures
        parse_lines(t.map_values(|e: EntryView| entry_line(e)).skip(i), (i + 1) as nat, t.take(i))
            == Ok::<Seq<EntryView>, DescriptionsFileErrorView>(t),
    decreases t.len() - i,
{
    let ls = t.map_values(|e: EntryView| entry_line(e));
    if i == t.len() {
        assert(ls.skip(i) =~= Seq::<Seq<char>>::empty());
        assert(t.take(i) =~= t);
    } else {
        let e = t[i];
        assert(entry_valid(e));
        let acc = t.take(i);
        assert(ls.skip(i)[0] == entry_line(e));
        assert(ls.skip(i).drop_first() =~= ls.skip(i + 1));
        lemma_parse_entry_line(e);
        assert forall|k: int| 0 <= k < acc.len() implies (#[trigger] acc[k]).0 != e.0 by {
            assert(lex_lt(t[k].0, t[i].0));
            lemma_lex_irreflexive(e.0);
        }
        lemma_table_get_none(acc, e.0);
        assert forall|a: int, b: int| 0 <= a < b < acc.len() implies lex_lt(
            #[trigger] acc[a].0,
            #[trigger] acc[b].0,
        ) by {
            assert(lex_lt(t[a].0, t[b].0));
        }
        assert forall|k: int| 0 <= k < acc.len() implies lex_lt(#[trigger] acc[k].0, e.0) by {
            assert(lex_lt(t[k].0, t[i].0));
        }
        lemma_sorted_insert_at(acc, e.0, e.1, acc.len() as int);
        assert(acc.take(acc.len() as int) + seq![(e.0, e.1)] + acc.skip(acc.len() as int) =~= t.take(
            i + 1,
        ));
        lemma_parse_rendered_lines(t, i + 1);
    }
}

/// Writing a table to the descriptions file and reading the file back gives
/// the same table.
pub proof fn law_render_then_parse(t: Seq<EntryView>)
    requires
        valid_table(t),
    ensures
        parse_descriptions(render(t)) == Ok::<Seq<EntryView>, DescriptionsFileErrorView>(t),
{
    lemma_render_lines(t);
    lemma_parse_rendered_lines(t, 0);
    assert(t.map_values(|e: EntryView| entry_line(e)).skip(0) =~= t.map_values(
        |e: EntryView| entry_line(e),
    ));
    assert(t.take(0) =~= Seq::<EntryView>::empty());
}

} // verus!
