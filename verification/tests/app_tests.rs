use terminal_slide::app::{Action, App};

#[test]
fn test_app_new() {
    let app = App::new(5);
    assert_eq!(app.current_slide_index, 0);
    assert_eq!(app.total_slides, 5);
    assert!(!app.should_quit);
}

#[test]
fn test_next_slide() {
    let mut app = App::new(3);
    assert_eq!(app.current_slide_index, 0);

    app.next_slide();
    assert_eq!(app.current_slide_index, 1);

    app.next_slide();
    assert_eq!(app.current_slide_index, 2);
}

#[test]
fn test_next_slide_clamps_at_last() {
    let mut app = App::new(3);
    app.current_slide_index = 2; // last slide

    app.next_slide();
    assert_eq!(app.current_slide_index, 2, "should not go past last slide");

    // Multiple attempts should not change the index.
    app.next_slide();
    app.next_slide();
    assert_eq!(app.current_slide_index, 2);
}

#[test]
fn test_prev_slide() {
    let mut app = App::new(3);
    app.current_slide_index = 2;

    app.prev_slide();
    assert_eq!(app.current_slide_index, 1);

    app.prev_slide();
    assert_eq!(app.current_slide_index, 0);
}

#[test]
fn test_prev_slide_clamps_at_first() {
    let mut app = App::new(3);
    assert_eq!(app.current_slide_index, 0);

    app.prev_slide();
    assert_eq!(app.current_slide_index, 0, "should not go below 0");

    // Multiple attempts should not underflow.
    app.prev_slide();
    app.prev_slide();
    assert_eq!(app.current_slide_index, 0);
}

#[test]
fn test_first_slide() {
    let mut app = App::new(5);
    app.current_slide_index = 3;

    app.first_slide();
    assert_eq!(app.current_slide_index, 0);
}

#[test]
fn test_last_slide() {
    let mut app = App::new(5);
    assert_eq!(app.current_slide_index, 0);

    app.last_slide();
    assert_eq!(app.current_slide_index, 4);
}

#[test]
fn test_first_slide_when_already_first() {
    let mut app = App::new(5);
    assert_eq!(app.current_slide_index, 0);

    app.first_slide();
    assert_eq!(app.current_slide_index, 0);
}

#[test]
fn test_last_slide_when_already_last() {
    let mut app = App::new(5);
    app.current_slide_index = 4;

    app.last_slide();
    assert_eq!(app.current_slide_index, 4);
}

#[test]
fn test_handle_action_quit() {
    let mut app = App::new(3);
    assert!(!app.should_quit);

    app.handle_action(Action::Quit);
    assert!(app.should_quit);
}

#[test]
fn test_handle_action_navigation() {
    let mut app = App::new(5);

    app.handle_action(Action::NextSlide);
    assert_eq!(app.current_slide_index, 1);

    app.handle_action(Action::NextSlide);
    assert_eq!(app.current_slide_index, 2);

    app.handle_action(Action::PrevSlide);
    assert_eq!(app.current_slide_index, 1);

    app.handle_action(Action::LastSlide);
    assert_eq!(app.current_slide_index, 4);

    app.handle_action(Action::FirstSlide);
    assert_eq!(app.current_slide_index, 0);
}

#[test]
fn test_handle_action_tick_and_none() {
    let mut app = App::new(3);
    app.current_slide_index = 1;

    app.handle_action(Action::Tick);
    assert_eq!(app.current_slide_index, 1);
    assert!(!app.should_quit);

    app.handle_action(Action::NoAction);
    assert_eq!(app.current_slide_index, 1);
    assert!(!app.should_quit);
}

#[test]
fn test_single_slide_presentation() {
    let mut app = App::new(1);
    assert_eq!(app.current_slide_index, 0);

    // Next should not advance past the only slide.
    app.next_slide();
    assert_eq!(app.current_slide_index, 0);

    // Prev should stay at 0.
    app.prev_slide();
    assert_eq!(app.current_slide_index, 0);

    // First and last should both be 0.
    app.first_slide();
    assert_eq!(app.current_slide_index, 0);
    app.last_slide();
    assert_eq!(app.current_slide_index, 0);
}

#[test]
fn test_zero_slides_presentation() {
    let mut app = App::new(0);
    assert_eq!(app.current_slide_index, 0);

    // All navigation should be safe with zero slides.
    app.next_slide();
    assert_eq!(app.current_slide_index, 0);

    app.prev_slide();
    assert_eq!(app.current_slide_index, 0);

    app.first_slide();
    assert_eq!(app.current_slide_index, 0);

    app.last_slide();
    assert_eq!(app.current_slide_index, 0);
}

#[test]
fn test_handle_action_returns_action() {
    let mut app = App::new(3);

    assert_eq!(app.handle_action(Action::NextSlide), Action::NextSlide);
    assert_eq!(app.handle_action(Action::PrevSlide), Action::PrevSlide);
    assert_eq!(app.handle_action(Action::Quit), Action::Quit);
    assert_eq!(app.handle_action(Action::Tick), Action::Tick);
    assert_eq!(app.handle_action(Action::NoAction), Action::NoAction);
}

// --- further cases ---

#[test]
fn next_then_prev_returns_to_the_same_slide() {
    let mut app = App::new(4);
    app.current_slide_index = 1;
    app.next_slide();
    app.prev_slide();
    assert_eq!(app.current_slide_index, 1);
}

#[test]
fn prev_then_next_returns_to_the_same_slide() {
    let mut app = App::new(4);
    app.current_slide_index = 2;
    app.prev_slide();
    app.next_slide();
    assert_eq!(app.current_slide_index, 2);
}

#[test]
fn every_action_keeps_the_index_in_range() {
    let actions = [
        Action::Quit,
        Action::NextSlide,
        Action::PrevSlide,
        Action::FirstSlide,
        Action::LastSlide,
        Action::Tick,
        Action::NoAction,
    ];
    for total in 0..4usize {
        let mut app = App::new(total);
        for a in actions.iter() {
            for _ in 0..3 {
                app.handle_action(*a);
                if total == 0 {
                    assert_eq!(app.current_slide_index, 0);
                } else {
                    assert!(app.current_slide_index < total);
                }
            }
        }
    }
}

#[test]
fn navigation_never_quits() {
    let mut app = App::new(3);
    app.handle_action(Action::NextSlide);
    app.handle_action(Action::LastSlide);
    app.handle_action(Action::PrevSlide);
    app.handle_action(Action::FirstSlide);
    app.handle_action(Action::Tick);
    assert!(!app.should_quit);
}

#[test]
fn progress_text_counts_from_one() {
    let mut app = App::new(12);
    assert_eq!(app.progress_text(), "1 / 12");
    app.last_slide();
    assert_eq!(app.progress_text(), "12 / 12");
    app.current_slide_index = 9;
    assert_eq!(app.progress_text(), "10 / 12");
}

#[test]
fn single_slide_detection() {
    assert!(App::new(0).is_single_slide());
    assert!(App::new(1).is_single_slide());
    assert!(!App::new(2).is_single_slide());
}
