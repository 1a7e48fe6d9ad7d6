use terminal_slide::app::{Action, App};
use terminal_slide::input::{
    footer_text, map_key_event, step, terminal_too_small, transition_for, Key, KeyPress,
    Transition, TransitionKind,
};

/// A key press with no modifiers.
fn key_press(key: Key) -> KeyPress {
    KeyPress { key, ctrl: false }
}

/// A key press with Ctrl held.
fn key_press_with_ctrl(key: Key) -> KeyPress {
    KeyPress { key, ctrl: true }
}

#[test]
fn test_quit_actions() {
    assert_eq!(map_key_event(key_press(Key::Char('q'))), Action::Quit);
    assert_eq!(map_key_event(key_press(Key::Esc)), Action::Quit);
    assert_eq!(
        map_key_event(key_press_with_ctrl(Key::Char('c'))),
        Action::Quit
    );
}

#[test]
fn test_next_slide_actions() {
    assert_eq!(map_key_event(key_press(Key::Right)), Action::NextSlide);
    assert_eq!(map_key_event(key_press(Key::Char('l'))), Action::NextSlide);
    assert_eq!(map_key_event(key_press(Key::Char('j'))), Action::NextSlide);
    assert_eq!(map_key_event(key_press(Key::Char('n'))), Action::NextSlide);
    assert_eq!(map_key_event(key_press(Key::Char(' '))), Action::NextSlide);
}

#[test]
fn test_prev_slide_actions() {
    assert_eq!(map_key_event(key_press(Key::Left)), Action::PrevSlide);
    assert_eq!(map_key_event(key_press(Key::Char('h'))), Action::PrevSlide);
    assert_eq!(map_key_event(key_press(Key::Char('k'))), Action::PrevSlide);
    assert_eq!(map_key_event(key_press(Key::Char('p'))), Action::PrevSlide);
}

#[test]
fn test_first_last_slide_actions() {
    assert_eq!(map_key_event(key_press(Key::Char('g'))), Action::FirstSlide);
    assert_eq!(map_key_event(key_press(Key::Char('G'))), Action::LastSlide);
}

#[test]
fn test_unmapped_keys_return_none() {
    assert_eq!(map_key_event(key_press(Key::Char('x'))), Action::NoAction);
    assert_eq!(map_key_event(key_press(Key::Char('z'))), Action::NoAction);
    assert_eq!(map_key_event(key_press(Key::Tab)), Action::NoAction);
    assert_eq!(map_key_event(key_press(Key::Enter)), Action::NoAction);
}

// --- further cases ---

#[test]
fn ctrl_with_other_keys_acts_as_the_key() {
    assert_eq!(map_key_event(key_press_with_ctrl(Key::Char('q'))), Action::Quit);
    assert_eq!(map_key_event(key_press_with_ctrl(Key::Right)), Action::NextSlide);
    assert_eq!(map_key_event(key_press(Key::Char('c'))), Action::NoAction);
    assert_eq!(map_key_event(key_press(Key::Other)), Action::NoAction);
}

#[test]
fn transitions_per_action() {
    assert_eq!(
        transition_for(Action::NextSlide),
        Some(Transition { kind: TransitionKind::SlideInFromRight, duration_ms: 300 })
    );
    assert_eq!(
        transition_for(Action::PrevSlide),
        Some(Transition { kind: TransitionKind::SlideInFromLeft, duration_ms: 300 })
    );
    assert_eq!(
        transition_for(Action::FirstSlide),
        Some(Transition { kind: TransitionKind::Coalesce, duration_ms: 200 })
    );
    assert_eq!(
        transition_for(Action::LastSlide),
        Some(Transition { kind: TransitionKind::Coalesce, duration_ms: 200 })
    );
    assert_eq!(transition_for(Action::Quit), None);
    assert_eq!(transition_for(Action::Tick), None);
    assert_eq!(transition_for(Action::NoAction), None);
}

#[test]
fn step_animates_only_real_moves() {
    let mut app = App::new(2);
    assert_eq!(step(&mut app, Action::PrevSlide), None);
    assert_eq!(
        step(&mut app, Action::NextSlide),
        Some(Transition { kind: TransitionKind::SlideInFromRight, duration_ms: 300 })
    );
    assert_eq!(step(&mut app, Action::NextSlide), None);
    assert_eq!(app.current_slide_index, 1);
    assert_eq!(step(&mut app, Action::Quit), None);
    assert!(app.should_quit);
}

#[test]
fn frame_decisions() {
    assert!(terminal_too_small(39, 10));
    assert!(terminal_too_small(40, 9));
    assert!(!terminal_too_small(40, 10));
    assert_eq!(footer_text(&App::new(1)), "  q to quit  ");
    let mut app = App::new(3);
    app.next_slide();
    assert_eq!(footer_text(&app), "  2 / 3  ");
}
