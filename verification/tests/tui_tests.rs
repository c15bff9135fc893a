use whitman::path::{FsPath, PathPart};
use whitman::names::{DescriptionError, NameError};
use whitman::profile::{Profile, ProfileError};
use whitman::tui::{
    clamp_selection, creation_refused, handle_event, move_down, move_up, picker_screen,
    select_created, visible_profiles, InputEvent, Key, KeyPress, Mode, PickerOutcome, PickerState,
};

fn profile(name: &str, description: &str) -> Profile {
    Profile {
        name: name.to_string(),
        description: description.to_string(),
        path: FsPath { parts: vec![PathPart::RootDir, PathPart::Normal(format!("AGENTS.{name}.md"))] },
    }
}

trait Continues {
    fn is_continue(&self) -> bool;
}

impl Continues for PickerOutcome {
    fn is_continue(&self) -> bool {
        matches!(self, PickerOutcome::Continue)
    }
}

fn key(k: Key) -> InputEvent {
    InputEvent::Key(KeyPress { key: k, control: false, alt: false })
}

#[test]
fn moves_within_the_list() {
    let mut state = PickerState::new();
    move_down(&mut state, 3);
    move_down(&mut state, 3);
    move_down(&mut state, 3);
    assert_eq!(state.selected, 2);
    move_up(&mut state, 3);
    assert_eq!(state.selected, 1);
    move_up(&mut state, 3);
    move_up(&mut state, 3);
    assert_eq!(state.selected, 0);
    move_down(&mut state, 0);
    assert_eq!(state.selected, 0);
    state.selected = 7;
    clamp_selection(&mut state, 3);
    assert_eq!(state.selected, 2);
    clamp_selection(&mut state, 0);
    assert_eq!(state.selected, 0);
}

#[test]
fn types_searches_and_confirms() {
    let profiles = vec![profile("home", "Personal tasks"), profile("work", "Client projects")];
    let mut state = PickerState::new();

    for c in "WOR".chars() {
        let visible = visible_profiles(&profiles, &state.query);
        assert!(handle_event(&mut state, &visible, key(Key::Char(c))).is_continue());
    }
    assert_eq!(state.query, "WOR");
    let visible = visible_profiles(&profiles, &state.query);
    assert_eq!(visible.len(), 1);

    assert!(handle_event(&mut state, &visible, key(Key::Enter)).is_continue());
    assert_eq!(state.mode, Mode::Confirm);
    let screen = picker_screen(&state, &visible);
    assert_eq!(screen.footer, "Use 'work' for ./AGENTS.md?\nEnter/y confirms. n/Esc returns.");
    assert_eq!(screen.footer_height, 5);

    match handle_event(&mut state, &visible, key(Key::Char('y'))) {
        PickerOutcome::Chosen(chosen) => assert_eq!(chosen.name, "work"),
        _ => panic!("expected a choice"),
    }
}

#[test]
fn navigation_keys_do_not_type() {
    let profiles = vec![profile("a", "A"), profile("b", "B")];
    let mut state = PickerState::new();
    let visible = visible_profiles(&profiles, &state.query);
    assert!(handle_event(&mut state, &visible, key(Key::Char('j'))).is_continue());
    assert_eq!(state.selected, 1);
    assert!(handle_event(&mut state, &visible, key(Key::Char('k'))).is_continue());
    assert_eq!(state.selected, 0);
    assert_eq!(state.query, "");
    assert!(matches!(handle_event(&mut state, &visible, key(Key::Char('q'))), PickerOutcome::Cancel));
}

#[test]
fn backspace_and_escape() {
    let profiles = vec![profile("a", "A")];
    let mut state = PickerState::new();
    state.query = "ab".to_string();
    state.selected = 0;
    let visible = visible_profiles(&profiles, &state.query);
    assert!(handle_event(&mut state, &visible, key(Key::Backspace)).is_continue());
    assert_eq!(state.query, "a");
    let visible = visible_profiles(&profiles, &state.query);
    assert!(handle_event(&mut state, &visible, key(Key::Enter)).is_continue());
    assert!(handle_event(&mut state, &visible, key(Key::Esc)).is_continue());
    assert_eq!(state.mode, Mode::Pick);
    let ctrl_c = InputEvent::Key(KeyPress { key: Key::Char('c'), control: true, alt: false });
    assert!(matches!(handle_event(&mut state, &visible, ctrl_c), PickerOutcome::Cancel));
    let alt_x = InputEvent::Key(KeyPress { key: Key::Char('x'), control: false, alt: true });
    assert!(handle_event(&mut state, &visible, alt_x).is_continue());
    assert_eq!(state.query, "a");
    assert!(handle_event(&mut state, &visible, InputEvent::Other).is_continue());
}

#[test]
fn enter_on_an_empty_list_stays() {
    let profiles = vec![profile("a", "A")];
    let mut state = PickerState::new();
    state.query = "zzz".to_string();
    let visible = visible_profiles(&profiles, &state.query);
    assert!(visible.is_empty());
    assert!(handle_event(&mut state, &visible, key(Key::Enter)).is_continue());
    assert_eq!(state.mode, Mode::Pick);
    let screen = picker_screen(&state, &visible);
    assert_eq!(screen.selected, None);
    assert_eq!(screen.footer, "Type to filter. j/k or arrows move. Enter selects. + creates a profile. q exits.");
    assert_eq!(screen.footer_height, 3);
}

fn type_text(state: &mut PickerState, profiles: &[Profile], text: &str) {
    for c in text.chars() {
        let visible = visible_profiles(profiles, &state.query);
        assert!(handle_event(state, &visible, key(Key::Char(c))).is_continue());
    }
}

#[test]
fn plus_creates_a_profile_from_inside_the_picker() {
    let profiles = vec![profile("home", "Personal tasks")];
    let mut state = PickerState::new();
    state.selected = 0;
    let visible = visible_profiles(&profiles, &state.query);
    assert!(handle_event(&mut state, &visible, key(Key::Char('+'))).is_continue());
    assert_eq!(state.mode, Mode::NewName);
    assert_eq!(state.query, "");

    type_text(&mut state, &profiles, " bad name");
    let visible = visible_profiles(&profiles, &state.query);
    assert!(handle_event(&mut state, &visible, key(Key::Enter)).is_continue());
    assert_eq!(state.mode, Mode::NewName);
    assert!(matches!(state.problem, Some(ProfileError::Name(NameError::InvalidCharacters))));
    let screen = picker_screen(&state, &visible);
    assert!(screen.footer.starts_with("New profile name:  bad name\n"));
    assert_eq!(screen.footer_height, 5);

    for _ in 0..9 {
        assert!(handle_event(&mut state, &visible, key(Key::Backspace)).is_continue());
    }
    assert_eq!(state.name, "");
    type_text(&mut state, &profiles, "work ");
    assert!(handle_event(&mut state, &visible, key(Key::Enter)).is_continue());
    assert_eq!(state.mode, Mode::NewDescription);
    assert_eq!(state.name, "work");
    assert!(state.problem.is_none());

    assert!(handle_event(&mut state, &visible, key(Key::Enter)).is_continue());
    assert!(matches!(state.problem, Some(ProfileError::Description(DescriptionError::Empty))));
    type_text(&mut state, &profiles, "Client projects");
    let screen = picker_screen(&state, &visible);
    assert_eq!(
        screen.footer,
        "Description of 'work': Client projects\ndescription cannot be empty\nEnter creates the profile. Esc goes back to the name."
    );
    match handle_event(&mut state, &visible, key(Key::Enter)) {
        PickerOutcome::Create { name, description } => {
            assert_eq!(name, "work");
            assert_eq!(description, "Client projects");
        }
        _ => panic!("expected a request to create the profile"),
    }

    let reloaded = vec![profile("home", "Personal tasks"), profile("work", "Client projects")];
    select_created(&mut state, &reloaded, "work");
    assert_eq!(state.mode, Mode::Confirm);
    assert_eq!(state.selected, 1);
    assert_eq!(state.name, "");
    let visible = visible_profiles(&reloaded, &state.query);
    match handle_event(&mut state, &visible, key(Key::Enter)) {
        PickerOutcome::Chosen(chosen) => assert_eq!(chosen.name, "work"),
        _ => panic!("expected the new profile"),
    }
}

#[test]
fn refused_creation_goes_back_to_the_name() {
    let profiles = vec![profile("home", "Personal tasks")];
    let mut state = PickerState::new();
    let visible = visible_profiles(&profiles, &state.query);
    assert!(handle_event(&mut state, &visible, key(Key::Char('+'))).is_continue());
    type_text(&mut state, &profiles, "home");
    assert!(handle_event(&mut state, &visible, key(Key::Enter)).is_continue());
    type_text(&mut state, &profiles, "Again");
    assert!(matches!(handle_event(&mut state, &visible, key(Key::Enter)), PickerOutcome::Create { .. }));
    creation_refused(&mut state, ProfileError::DescriptionExists("home".to_string()));
    assert_eq!(state.mode, Mode::NewName);
    let screen = picker_screen(&state, &visible);
    assert!(screen.footer.contains("profile description already exists for home"));

    // Esc on the description goes back to the name; Esc on the name leaves creation.
    assert!(handle_event(&mut state, &visible, key(Key::Enter)).is_continue());
    assert_eq!(state.mode, Mode::NewDescription);
    assert!(handle_event(&mut state, &visible, key(Key::Esc)).is_continue());
    assert_eq!(state.mode, Mode::NewName);
    assert!(handle_event(&mut state, &visible, key(Key::Esc)).is_continue());
    assert_eq!(state.mode, Mode::Pick);
    assert_eq!(state.name, "");

    // 'q' is typed into a name rather than leaving.
    assert!(handle_event(&mut state, &visible, key(Key::Char('+'))).is_continue());
    assert!(handle_event(&mut state, &visible, key(Key::Char('q'))).is_continue());
    assert_eq!(state.name, "q");

    select_created(&mut state, &profiles, "missing");
    assert_eq!(state.mode, Mode::Pick);
    assert_eq!(state.selected, 0);
}

#[test]
fn plus_is_search_text_where_the_picker_cannot_add() {
    let profiles = vec![profile("c", "C++ work")];
    let mut state = PickerState::new_without_creation();
    type_text(&mut state, &profiles, "c+");
    assert_eq!(state.mode, Mode::Pick);
    assert_eq!(state.query, "c+");
    let visible = visible_profiles(&profiles, &state.query);
    assert_eq!(visible.len(), 1);
    let screen = picker_screen(&state, &visible);
    assert_eq!(screen.footer, "Type to filter. j/k or arrows move. Enter selects. q exits.");
}
