//! The decisions of the profile picker: what a key press does to the
//! picker's state, and what the screen shows.

use vstd::prelude::*;
use crate::names::check_name;
use crate::profile::{description_of, filter_profiles, query_of, ref_views, select, profile_views, validate_profile_description, validate_profile_name, Profile, ProfileError, ProfileErrorView, ProfileView};
use crate::text::{chars_of, pop_char, push_char, string_from_chars, trim, trim_chars};

verus! {

broadcast use vstd::string::group_string_axioms;

/// What the picker is doing: choosing a profile, confirming the choice, or
/// asking for the name and then the description of a new profile.
#[derive(Debug, Clone, Copy, PartialEq, Eq)]
pub enum Mode {
    Pick,
    Confirm,
    NewName,
    NewDescription,
}

/// The picker's state: the search text, the highlighted row, the mode,
/// whether `+` creates a profile, what has been typed for a new profile,
/// and why the last attempt to create one was refused.
#[derive(Debug)]
pub struct PickerState {
    pub query: String,
    pub selected: usize,
    pub mode: Mode,
    pub creates: bool,
    pub name: String,
    pub description: String,
    pub problem: Option<ProfileError>,
}

pub struct PickerStateView {
    pub query: Seq<char>,
    pub selected: nat,
    pub mode: Mode,
    pub creates: bool,
    pub name: Seq<char>,
    pub description: Seq<char>,
    pub problem: Option<ProfileErrorView>,
}

/// The view of an optional error.
pub open spec fn problem_view(p: Option<ProfileError>) -> Option<ProfileErrorView> {
    match p {
        Some(e) => Some(e@),
        None => None,
    }
}

impl View for PickerState {
    type V = PickerStateView;

    open spec fn view(&self) -> PickerStateView {
        PickerStateView {
            query: self.query@,
            selected: self.selected as nat,
            mode: self.mode,
            creates: self.creates,
            name: self.name@,
            description: self.description@,
            problem: problem_view(self.problem),
        }
    }
}

impl PickerState {
    /// An empty search, the first row, choosing; `+` creates a profile.
    pub fn new() -> (r: PickerState)
        ensures
            r@ == (PickerStateView {
                query: Seq::empty(),
                selected: 0,
                mode: Mode::Pick,
                creates: true,
                name: Seq::empty(),
                description: Seq::empty(),
                problem: None,
            }),
    {
        PickerState {
            query: String::new(),
            selected: 0,
            mode: Mode::Pick,
            creates: true,
            name: String::new(),
            description: String::new(),
            problem: None,
        }
    }

    /// As [`PickerState::new`], for a list to which the picker cannot add:
    /// `+` is search text like any other character.
    pub fn new_without_creation() -> (r: PickerState)
        ensures
            r@ == (PickerStateView {
                query: Seq::empty(),
                selected: 0,
                mode: Mode::Pick,
                creates: false,
                name: Seq::empty(),
                description: Seq::empty(),
                problem: None,
            }),
    {
        PickerState {
            query: String::new(),
            selected: 0,
            mode: Mode::Pick,
            creates: false,
            name: String::new(),
            description: String::new(),
            problem: None,
        }
    }
}

/// The key of a key press.
#[derive(Debug, Clone, Copy, PartialEq, Eq, Structural)]
pub enum Key {
    Char(char),
    Esc,
    Enter,
    Backspace,
    Up,
    Down,
    /// Any other key.
    Other,
}

/// A key press with the modifiers that matter here.
#[derive(Debug, Clone, Copy, PartialEq, Eq)]
pub struct KeyPress {
    pub key: Key,
    pub control: bool,
    pub alt: bool,
}

/// A terminal event.
#[derive(Debug, Clone, Copy, PartialEq, Eq)]
pub enum InputEvent {
    Key(KeyPress),
    /// Anything that is not a key press (resize, mouse, focus, paste).
    Other,
}

/// What a step of the picker decided.
pub enum PickerResult {
    /// Keep going.
    Continue,
    /// The user left without choosing.
    Cancel,
    /// The user confirmed the row at this index of the visible profiles;
    /// `None` when there is no such row.
    Choose(Option<nat>),
    /// The user asked to create a profile with this name and description.
    Create(Seq<char>, Seq<char>),
}

/// What [`handle_event`] hands back.
#[derive(Debug)]
pub enum PickerOutcome {
    /// Keep going.
    Continue,
    /// The user left without choosing.
    Cancel,
    /// The user confirmed this profile.
    Chosen(Profile),
    /// The user asked to create the profile `name` with `description`: the
    /// caller writes it, then calls [`select_created`] or
    /// [`creation_refused`].
    Create { name: String, description: String },
}

/// The profiles shown for a search (see [`filter_profiles`]).
pub fn visible_profiles<'a>(profiles: &'a [Profile], query: &str) -> (r: Vec<&'a Profile>)
    ensures
        ref_views(r@) == if query_of(query@).len() == 0 {
            profile_views(profiles@)
        } else {
            select(profile_views(profiles@), query_of(query@))
        },
{
    filter_profiles(profiles, query)
}

/// The highlighted row after the list changed to `visible_len` rows.
pub open spec fn clamped(selected: nat, visible_len: nat) -> nat {
    if visible_len == 0 {
        0
    } else if selected >= visible_len {
        (visible_len - 1) as nat
    } else {
        selected
    }
}

/// Keeps the highlighted row inside a list of `visible_len` rows.
pub fn clamp_selection(state: &mut PickerState, visible_len: usize)
    ensures
        final(state)@ == (PickerStateView { selected: clamped(old(state)@.selected, visible_len as nat), ..old(state)@ }),
{
    if visible_len == 0 {
        state.selected = 0;
    } else if state.selected >= visible_len {
        state.selected = visible_len - 1;
    }
}

/// The row below, stopping at the last one.
pub open spec fn moved_down(selected: nat, visible_len: nat) -> nat {
    if visible_len > 0 {
        if selected + 1 < visible_len - 1 {
            selected + 1
        } else {
            (visible_len - 1) as nat
        }
    } else {
        selected
    }
}

/// The row above, stopping at the first one.
pub open spec fn moved_up(selected: nat, visible_len: nat) -> nat {
    if visible_len > 0 && selected > 0 {
        (selected - 1) as nat
    } else {
        selected
    }
}

/// Moves the highlight one row down.
pub fn move_down(state: &mut PickerState, visible_len: usize)
    requires
        visible_len > 0 ==> old(state).selected < usize::MAX,
    ensures
        final(state)@ == (PickerStateView { selected: moved_down(old(state)@.selected, visible_len as nat), ..old(state)@ }),
{
    if visible_len > 0 {
        let next = state.selected + 1;
        state.selected = if next < visible_len - 1 { next } else { visible_len - 1 };
    }
}

/// Moves the highlight one row up.
pub fn move_up(state: &mut PickerState, visible_len: usize)
    ensures
        final(state)@ == (PickerStateView { selected: moved_up(old(state)@.selected, visible_len as nat), ..old(state)@ }),
{
    if visible_len > 0 && state.selected > 0 {
        state.selected = state.selected - 1;
    }
}

/// A line that shows why creating a profile was refused, if it was.
pub open spec fn problem_line(p: Option<ProfileErrorView>) -> Seq<char> {
    match p {
        Some(e) => "\n"@ + e.spec_message(),
        None => Seq::empty(),
    }
}

/// The text being typed, after an editing key: Backspace removes the last
/// character, a plain character is added; `None` for any other key.
pub open spec fn edited(text: Seq<char>, k: KeyPress) -> Option<Seq<char>> {
    match k.key {
        Key::Backspace => Some(if text.len() > 0 { text.drop_last() } else { text }),
        Key::Char(c) => if !k.control && !k.alt {
            Some(text.push(c))
        } else {
            None
        },
        _ => None,
    }
}

/// What an event does to the picker: its next state and what was decided,
/// with `n` rows visible.
pub open spec fn picker_step(s: PickerStateView, n: nat, event: InputEvent) -> (PickerStateView, PickerResult) {
    match event {
        InputEvent::Other => (s, PickerResult::Continue),
        InputEvent::Key(k) => if k.control && k.key == Key::Char('c') {
            (s, PickerResult::Cancel)
        } else {
            match s.mode {
                Mode::Pick => match k.key {
                    Key::Esc | Key::Char('q') => (s, PickerResult::Cancel),
                    Key::Char('j') | Key::Down => (PickerStateView { selected: moved_down(s.selected, n), ..s }, PickerResult::Continue),
                    Key::Char('k') | Key::Up => (PickerStateView { selected: moved_up(s.selected, n), ..s }, PickerResult::Continue),
                    Key::Enter => if n > 0 {
                        (PickerStateView { mode: Mode::Confirm, ..s }, PickerResult::Continue)
                    } else {
                        (s, PickerResult::Continue)
                    },
                    Key::Backspace => (PickerStateView {
                        query: if s.query.len() > 0 { s.query.drop_last() } else { s.query },
                        selected: 0,
                        ..s
                    }, PickerResult::Continue),
                    Key::Char(c) => if c == '+' && s.creates && !k.control && !k.alt {
                        (PickerStateView {
                            mode: Mode::NewName,
                            name: Seq::empty(),
                            description: Seq::empty(),
                            problem: None,
                            ..s
                        }, PickerResult::Continue)
                    } else if !k.control && !k.alt {
                        (PickerStateView { query: s.query.push(c), selected: 0, ..s }, PickerResult::Continue)
                    } else {
                        (s, PickerResult::Continue)
                    },
                    _ => (s, PickerResult::Continue),
                },
                Mode::Confirm => match k.key {
                    Key::Enter | Key::Char('y') | Key::Char('Y') => (s, PickerResult::Choose(
                        if s.selected < n { Some(s.selected) } else { None },
                    )),
                    Key::Esc | Key::Char('n') | Key::Char('N') => (PickerStateView { mode: Mode::Pick, ..s }, PickerResult::Continue),
                    _ => (s, PickerResult::Continue),
                },
                Mode::NewName => match k.key {
                    Key::Esc => (PickerStateView {
                        mode: Mode::Pick,
                        name: Seq::empty(),
                        description: Seq::empty(),
                        problem: None,
                        ..s
                    }, PickerResult::Continue),
                    Key::Enter => match check_name(trim(s.name)) {
                        Ok(_) => (PickerStateView { mode: Mode::NewDescription, name: trim(s.name), problem: None, ..s }, PickerResult::Continue),
                        Err(e) => (PickerStateView { problem: Some(ProfileErrorView::Name(e)), ..s }, PickerResult::Continue),
                    },
                    _ => match edited(s.name, k) {
                        Some(t) => (PickerStateView { name: t, ..s }, PickerResult::Continue),
                        None => (s, PickerResult::Continue),
                    },
                },
                Mode::NewDescription => match k.key {
                    Key::Esc => (PickerStateView { mode: Mode::NewName, problem: None, ..s }, PickerResult::Continue),
                    Key::Enter => match check_name(s.name) {
                        Err(e) => (PickerStateView { mode: Mode::NewName, problem: Some(ProfileErrorView::Name(e)), ..s }, PickerResult::Continue),
                        Ok(_) => match description_of(s.description) {
                            Ok(_) => (s, PickerResult::Create(s.name, s.description)),
                            Err(e) => (PickerStateView { problem: Some(ProfileErrorView::Description(e)), ..s }, PickerResult::Continue),
                        },
                    },
                    _ => match edited(s.description, k) {
                        Some(t) => (PickerStateView { description: t, ..s }, PickerResult::Continue),
                        None => (s, PickerResult::Continue),
                    },
                },
            }
        },
    }
}

/// Applies an editing key to `text` (see [`edited`]).
fn edit_text(text: &mut String, k: KeyPress)
    ensures
        match edited(old(text)@, k) {
            Some(t) => final(text)@ == t,
            None => final(text)@ == old(text)@,
        },
{
    match k.key {
        Key::Backspace => {
            pop_char(text);
        },
        Key::Char(c) => {
            if !k.control && !k.alt {
                push_char(text, c);
            }
        },
        _ => {},
    }
}

/// Applies one terminal event to the picker.
pub fn handle_event(state: &mut PickerState, visible: &Vec<&Profile>, event: InputEvent) -> (r: PickerOutcome)
    requires
        visible@.len() > 0 ==> old(state).selected < usize::MAX,
    ensures
        final(state)@ == picker_step(old(state)@, visible@.len(), event).0,
        match picker_step(old(state)@, visible@.len(), event).1 {
            PickerResult::Continue => r is Continue,
            PickerResult::Cancel => r is Cancel,
            PickerResult::Choose(None) => r is Cancel,
            PickerResult::Choose(Some(i)) => r matches PickerOutcome::Chosen(p) && p@ == ref_views(visible@)[i as int],
            PickerResult::Create(name, description) => r matches PickerOutcome::Create { name: a, description: b } && a@ == name && b@ == description,
        },
{
    let k = match event {
        InputEvent::Other => return PickerOutcome::Continue,
        InputEvent::Key(k) => k,
    };
    if k.control && k.key == Key::Char('c') {
        return PickerOutcome::Cancel;
    }
    match state.mode {
        Mode::Pick => match k.key {
            Key::Esc | Key::Char('q') => PickerOutcome::Cancel,
            Key::Char('j') | Key::Down => {
                move_down(state, visible.len());
                PickerOutcome::Continue
            },
            Key::Char('k') | Key::Up => {
                move_up(state, visible.len());
                PickerOutcome::Continue
            },
            Key::Enter => {
                if visible.len() > 0 {
                    state.mode = Mode::Confirm;
                }
                PickerOutcome::Continue
            },
            Key::Backspace => {
                pop_char(&mut state.query);
                state.selected = 0;
                PickerOutcome::Continue
            },
            Key::Char(c) => {
                if c == '+' && state.creates && !k.control && !k.alt {
                    state.mode = Mode::NewName;
                    state.name = String::new();
                    state.description = String::new();
                    state.problem = None;
                } else if !k.control && !k.alt {
                    push_char(&mut state.query, c);
                    state.selected = 0;
                }
                PickerOutcome::Continue
            },
            _ => PickerOutcome::Continue,
        },
        Mode::Confirm => match k.key {
            Key::Enter | Key::Char('y') | Key::Char('Y') => {
                if state.selected < visible.len() {
                    let p: &Profile = visible[state.selected];
                    PickerOutcome::Chosen(p.duplicate())
                } else {
                    PickerOutcome::Cancel
                }
            },
            Key::Esc | Key::Char('n') | Key::Char('N') => {
                state.mode = Mode::Pick;
                PickerOutcome::Continue
            },
            _ => PickerOutcome::Continue,
        },
        Mode::NewName => match k.key {
            Key::Esc => {
                state.mode = Mode::Pick;
                state.name = String::new();
                state.description = String::new();
                state.problem = None;
                PickerOutcome::Continue
            },
            Key::Enter => {
                let chars = chars_of(state.name.as_str());
                let trimmed = string_from_chars(trim_chars(chars.as_slice()).as_slice());
                match validate_profile_name(trimmed.as_str()) {
                    Ok(()) => {
                        state.mode = Mode::NewDescription;
                        state.name = trimmed;
                        state.problem = None;
                    },
                    Err(e) => {
                        state.problem = Some(ProfileError::Name(e));
                    },
                }
                PickerOutcome::Continue
            },
            _ => {
                edit_text(&mut state.name, k);
                PickerOutcome::Continue
            },
        },
        Mode::NewDescription => match k.key {
            Key::Esc => {
                state.mode = Mode::NewName;
                state.problem = None;
                PickerOutcome::Continue
            },
            Key::Enter => {
                match validate_profile_name(state.name.as_str()) {
                    Err(e) => {
                        state.mode = Mode::NewName;
                        state.problem = Some(ProfileError::Name(e));
                        PickerOutcome::Continue
                    },
                    Ok(()) => match validate_profile_description(state.description.as_str()) {
                        Ok(_) => PickerOutcome::Create {
                            name: state.name.clone(),
                            description: state.description.clone(),
                        },
                        Err(e) => {
                            state.problem = Some(ProfileError::Description(e));
                            PickerOutcome::Continue
                        },
                    },
                }
            },
            _ => {
                edit_text(&mut state.description, k);
                PickerOutcome::Continue
            },
        },
    }
}

/// Whether `s` names a profile called `name`, and no earlier profile of `s`
/// does: `i` is the first row with that name.
pub open spec fn is_first_named(s: Seq<ProfileView>, name: Seq<char>, i: int) -> bool {
    &&& 0 <= i < s.len()
    &&& s[i].name == name
    &&& forall|j: int| 0 <= j < i ==> s[j].name != name
}

/// After the profile `name` was created and the list read again as
/// `profiles`: the search and the typed text are cleared, and the new
/// profile is highlighted and waits for confirmation. Where the list holds
/// no profile of that name, the picker goes back to choosing from the top.
pub fn select_created(state: &mut PickerState, profiles: &[Profile], name: &str)
    ensures
        final(state)@.query == Seq::<char>::empty(),
        final(state)@.name == Seq::<char>::empty(),
        final(state)@.description == Seq::<char>::empty(),
        final(state)@.problem is None,
        final(state)@.mode == Mode::Confirm || final(state)@.mode == Mode::Pick,
        final(state)@.mode == Mode::Confirm ==> is_first_named(profile_views(profiles@), name@, final(state)@.selected as int),
        final(state)@.mode == Mode::Pick ==> final(state)@.selected == 0 && forall|j: int| 0 <= j < profiles@.len() ==> #[trigger] profile_views(profiles@)[j].name != name@,
{
    let ghost views = profile_views(profiles@);
    let target = String::from_str(name);
    let mut i: usize = 0;
    let mut found = false;
    while i < profiles.len() && !found
        invariant
            i <= profiles@.len(),
            views == profile_views(profiles@),
            target@ == name@,
            found ==> i < profiles@.len() && views[i as int].name == name@,
            forall|j: int| 0 <= j < i ==> #[trigger] views[j].name != name@,
        decreases profiles@.len() - i, if found { 0int } else { 1int },
    {
        assert(views[i as int] == profiles@[i as int]@);
        if profiles[i].name.eq(&target) {
            found = true;
        } else {
            i = i + 1;
        }
    }
    state.query = String::new();
    state.name = String::new();
    state.description = String::new();
    state.problem = None;
    if found {
        state.selected = i;
        state.mode = Mode::Confirm;
    } else {
        state.selected = 0;
        state.mode = Mode::Pick;
    }
}

/// Creating the profile was refused with `error`: back to asking for the
/// name, showing why.
pub fn creation_refused(state: &mut PickerState, error: ProfileError)
    ensures
        final(state)@ == (PickerStateView { mode: Mode::NewName, problem: Some(error@), ..old(state)@ }),
{
    state.mode = Mode::NewName;
    state.problem = Some(error);
}

/// One row of the profile list.
#[derive(Debug)]
pub struct Row {
    pub name: String,
    pub description: String,
}

/// What the picker screen shows: the search text, the rows, the highlighted
/// row, and the footer with its height in terminal lines.
#[derive(Debug)]
pub struct PickerScreen {
    pub query: String,
    pub rows: Vec<Row>,
    pub selected: Option<usize>,
    pub footer: String,
    pub footer_height: u16,
}

/// The footer text for a state with the given visible profiles.
pub open spec fn footer_text(s: PickerStateView, visible: Seq<ProfileView>) -> Seq<char> {
    match s.mode {
        Mode::Confirm => if s.selected < visible.len() {
            "Use '"@ + visible[s.selected as int].name + "' for ./AGENTS.md?\nEnter/y confirms. n/Esc returns."@
        } else {
            "No matching profile."@
        },
        Mode::Pick => if s.creates {
            "Type to filter. j/k or arrows move. Enter selects. + creates a profile. q exits."@
        } else {
            "Type to filter. j/k or arrows move. Enter selects. q exits."@
        },
        Mode::NewName => "New profile name: "@ + s.name + problem_line(s.problem) + "\nEnter continues. Esc cancels."@,
        Mode::NewDescription => "Description of '"@ + s.name + "': "@ + s.description + problem_line(s.problem)
            + "\nEnter creates the profile. Esc goes back to the name."@,
    }
}

/// The text of [`problem_line`].
fn problem_text(problem: &Option<ProfileError>) -> (r: String)
    ensures
        r@ == problem_line(problem_view(*problem)),
{
    match problem {
        Some(e) => {
            let s = String::from_str("\n");
            s.concat(e.message().as_str())
        },
        None => String::new(),
    }
}

/// What the screen shows for `state` with the profiles `visible`.
pub fn picker_screen(state: &PickerState, visible: &Vec<&Profile>) -> (r: PickerScreen)
    ensures
        r.query@ == state.query@,
        r.rows@.len() == visible@.len(),
        forall|i: int| 0 <= i < visible@.len() ==> #[trigger] r.rows@[i].name@ == visible@[i].name@ && r.rows@[i].description@ == visible@[i].description@,
        r.selected == if visible@.len() > 0 { Some(state.selected) } else { None::<usize> },
        r.footer@ == footer_text(state@, ref_views(visible@)),
        r.footer_height == if state.mode == Mode::Pick { 3u16 } else { 5u16 },
{
    let mut rows: Vec<Row> = Vec::new();
    let mut i: usize = 0;
    while i < visible.len()
        invariant
            i <= visible@.len(),
            rows@.len() == i,
            forall|k: int| 0 <= k < i ==> #[trigger] rows@[k].name@ == visible@[k].name@ && rows@[k].description@ == visible@[k].description@,
        decreases visible@.len() - i,
    {
        let p: &Profile = visible[i];
        rows.push(Row { name: p.name.clone(), description: p.description.clone() });
        i = i + 1;
    }
    let selected = if visible.len() > 0 { Some(state.selected) } else { None };
    let footer = match state.mode {
        Mode::Confirm => if state.selected < visible.len() {
            let p: &Profile = visible[state.selected];
            assert(ref_views(visible@)[state.selected as int] == p@);
            let s = String::from_str("Use '");
            let s = s.concat(p.name.as_str());
            s.concat("' for ./AGENTS.md?\nEnter/y confirms. n/Esc returns.")
        } else {
            String::from_str("No matching profile.")
        },
        Mode::Pick => if state.creates {
            String::from_str("Type to filter. j/k or arrows move. Enter selects. + creates a profile. q exits.")
        } else {
            String::from_str("Type to filter. j/k or arrows move. Enter selects. q exits.")
        },
        Mode::NewName => {
            let s = String::from_str("New profile name: ");
            let s = s.concat(state.name.as_str());
            let s = s.concat(problem_text(&state.problem).as_str());
            s.concat("\nEnter continues. Esc cancels.")
        },
        Mode::NewDescription => {
            let s = String::from_str("Description of '");
            let s = s.concat(state.name.as_str());
            let s = s.concat("': ");
            let s = s.concat(state.description.as_str());
            let s = s.concat(problem_text(&state.problem).as_str());
            s.concat("\nEnter creates the profile. Esc goes back to the name.")
        },
    };
    let footer_height: u16 = match state.mode {
        Mode::Pick => 3,
        _ => 5,
    };
    PickerScreen { query: state.query.clone(), rows, selected, footer, footer_height }
}

/// Once the highlight is inside the list, moving and typing keep it there.
pub proof fn law_selection_stays_in_list(s: PickerStateView, n: nat, event: InputEvent)
    requires
        s.selected < n || (n == 0 && s.selected == 0),
    ensures
        ({
            let t = picker_step(s, n, event).0;
            t.selected < n || (n == 0 && t.selected == 0)
        }),
{
}

/// Typing or erasing a character of the search puts the highlight back on
/// the first row.
pub proof fn law_editing_resets_selection(s: PickerStateView, n: nat, k: KeyPress)
    requires
        s.mode == Mode::Pick,
        !k.control,
        !k.alt,
        k.key is Backspace || (k.key matches Key::Char(c) && c != 'q' && c != 'j' && c != 'k' && (c != '+' || !s.creates)),
    ensures
        picker_step(s, n, InputEvent::Key(k)).0.selected == 0,
        picker_step(s, n, InputEvent::Key(k)).1 is Continue,
{
}

/// Nothing is chosen without a confirmation: only the confirmation step
/// chooses, on Enter, `y` or `Y`, and then the highlighted row; Enter on a
/// non-empty list while choosing only moves to the confirmation step.
pub proof fn law_choice_needs_confirmation(s: PickerStateView, n: nat, event: InputEvent)
    ensures
        picker_step(s, n, event).1 is Choose ==> s.mode == Mode::Confirm && (event matches InputEvent::Key(k) && (k.key == Key::Enter || k.key == Key::Char('y') || k.key == Key::Char('Y'))),
        picker_step(s, n, event).1 matches PickerResult::Choose(Some(i)) ==> i == s.selected && i < n,
        (s.mode == Mode::Pick && n > 0 && (event matches InputEvent::Key(k) && k.key == Key::Enter)) ==> picker_step(s, n, event) == (PickerStateView { mode: Mode::Confirm, ..s }, PickerResult::Continue),
{
}

/// `+` while choosing starts a new profile, with nothing typed yet, where
/// the picker can add profiles; elsewhere it is search text.
pub proof fn law_plus_starts_creation(s: PickerStateView, n: nat)
    requires
        s.mode == Mode::Pick,
    ensures
        !s.creates ==> picker_step(s, n, InputEvent::Key(KeyPress { key: Key::Char('+'), control: false, alt: false })) == (PickerStateView {
            query: s.query.push('+'),
            selected: 0,
            ..s
        }, PickerResult::Continue),
        s.creates ==>
        picker_step(s, n, InputEvent::Key(KeyPress { key: Key::Char('+'), control: false, alt: false })) == (PickerStateView {
            mode: Mode::NewName,
            name: Seq::<char>::empty(),
            description: Seq::<char>::empty(),
            problem: None::<ProfileErrorView>,
            ..s
        }, PickerResult::Continue),
{
}

/// A profile is asked to be created only from the description step, with a
/// name and a description that pass the rules.
pub proof fn law_creation_only_valid(s: PickerStateView, n: nat, event: InputEvent)
    ensures
        picker_step(s, n, event).1 matches PickerResult::Create(name, description) ==> s.mode == Mode::NewDescription && name == s.name && description == s.description && check_name(name) is Ok && description_of(description) is Ok,
{
}

/// Moving down goes to the next row, stopping at the last one: with `n > 0`
/// rows the highlight becomes `min(selected + 1, n - 1)`; with no rows it
/// stays. Moving up goes to the previous row, stopping at the first.
pub proof fn law_moves_by_one_row(selected: nat, n: nat)
    ensures
        n > 0 && selected + 1 < n ==> moved_down(selected, n) == selected + 1,
        n > 0 && selected + 1 >= n ==> moved_down(selected, n) == n - 1,
        n == 0 ==> moved_down(selected, n) == selected,
        n > 0 && selected > 0 ==> moved_up(selected, n) == selected - 1,
        selected == 0 || n == 0 ==> moved_up(selected, n) == selected,
{
}

/// While choosing, the Down arrow and `j` move the highlight to the next
/// row (stopping at the last), the Up arrow and `k` to the previous row
/// (stopping at the first); nothing else changes and the picker goes on.
pub proof fn law_arrow_keys_move(s: PickerStateView, n: nat, k: KeyPress)
    requires
        s.mode == Mode::Pick,
    ensures
        (k.key == Key::Down || k.key == Key::Char('j')) ==> {
            let (t, r) = picker_step(s, n, InputEvent::Key(k));
            &&& r is Continue
            &&& t.selected == (if n == 0 { s.selected } else if s.selected + 1 < n { s.selected + 1 } else { (n - 1) as nat })
            &&& t.query == s.query && t.mode == s.mode && t.name == s.name && t.description == s.description
        },
        (k.key == Key::Up || k.key == Key::Char('k')) ==> {
            let (t, r) = picker_step(s, n, InputEvent::Key(k));
            &&& r is Continue
            &&& t.selected == (if n > 0 && s.selected > 0 { (s.selected - 1) as nat } else { s.selected })
            &&& t.query == s.query && t.mode == s.mode && t.name == s.name && t.description == s.description
        },
{
}

/// Clamping brings the highlight inside a non-empty list, and to the first
/// row of an empty one.
pub proof fn law_clamp_in_range(selected: nat, n: nat)
    ensures
        clamped(selected, n) < n || (n == 0 && clamped(selected, n) == 0),
        selected < n ==> clamped(selected, n) == selected,
        0 < n <= selected ==> clamped(selected, n) == n - 1,
{
}

/// While choosing, a plain character other than a command key is added to
/// the end of the search text and Backspace removes its last character;
/// either way the highlight goes back to the first row.
pub proof fn law_typing_edits_search(s: PickerStateView, n: nat, k: KeyPress)
    requires
        s.mode == Mode::Pick,
        !k.control,
        !k.alt,
    ensures
        (k.key matches Key::Char(c) && c != 'q' && c != 'j' && c != 'k' && (c != '+' || !s.creates)) ==> ({
            let (t, r) = picker_step(s, n, InputEvent::Key(k));
            &&& r is Continue
            &&& t.query.len() == s.query.len() + 1
            &&& t.query.take(s.query.len() as int) == s.query
            &&& t.query.last() == k.key->Char_0
            &&& t.selected == 0
            &&& t.mode == Mode::Pick
        }),
        k.key == Key::Backspace ==> ({
            let (t, r) = picker_step(s, n, InputEvent::Key(k));
            &&& r is Continue
            &&& t.query == (if s.query.len() > 0 { s.query.take(s.query.len() - 1) } else { s.query })
            &&& t.selected == 0
            &&& t.mode == Mode::Pick
        }),
{
    match k.key {
        Key::Char(c) => {
            let t = picker_step(s, n, InputEvent::Key(k)).0;
            if c != 'q' && c != 'j' && c != 'k' && (c != '+' || !s.creates) {
                assert(t.query.take(s.query.len() as int) =~= s.query);
            }
        },
        Key::Backspace => {
            if s.query.len() > 0 {
                assert(s.query.drop_last() =~= s.query.take(s.query.len() - 1));
            }
        },
        _ => {},
    }
}

} // verus!
