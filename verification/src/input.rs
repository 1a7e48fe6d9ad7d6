//! The interactive presentation's decisions: which key does what, which
//! transition a slide change gets, and what the frame around a slide shows.

use vstd::prelude::*;
use vstd::string::StringExecFns;
use crate::app::{index_after, progress_text_of, Action, App};

verus! {

/// A key, as far as the presentation cares.
#[derive(Debug, Clone, Copy, PartialEq, Eq, Structural)]
pub enum Key {
    Char(char),
    Esc,
    Right,
    Left,
    Tab,
    Enter,
    /// Any other key.
    Other,
}

/// A key press: the key and whether Ctrl was held.
#[derive(Debug, Clone, Copy, PartialEq, Eq, Structural)]
pub struct KeyPress {
    pub key: Key,
    pub ctrl: bool,
}

/// The action of a key press:
/// - Right / l / j / n / Space → NextSlide
/// - Left / h / k / p → PrevSlide
/// - q / Esc / Ctrl+C → Quit
/// - g → FirstSlide
/// - G (Shift+g) → LastSlide
pub open spec fn key_action(press: KeyPress) -> Action {
    if press.ctrl && press.key == Key::Char('c') {
        Action::Quit
    } else {
        match press.key {
            Key::Char(c) => if c == 'q' {
                Action::Quit
            } else if c == 'l' || c == 'j' || c == 'n' || c == ' ' {
                Action::NextSlide
            } else if c == 'h' || c == 'k' || c == 'p' {
                Action::PrevSlide
            } else if c == 'g' {
                Action::FirstSlide
            } else if c == 'G' {
                Action::LastSlide
            } else {
                Action::NoAction
            },
            Key::Esc => Action::Quit,
            Key::Right => Action::NextSlide,
            Key::Left => Action::PrevSlide,
            _ => Action::NoAction,
        }
    }
}

/// Map a key press to an [`Action`].
pub fn map_key_event(press: KeyPress) -> (a: Action)
    ensures
        a == key_action(press),
{
    // Ctrl+C is a quit action (in raw mode, it does not generate SIGINT).
    if press.ctrl && press.key == Key::Char('c') {
        return Action::Quit;
    }
    match press.key {
        Key::Char('q') => Action::Quit,
        Key::Esc => Action::Quit,
        Key::Right => Action::NextSlide,
        Key::Char('l') => Action::NextSlide,
        Key::Char('j') => Action::NextSlide,
        Key::Char('n') => Action::NextSlide,
        Key::Char(' ') => Action::NextSlide,
        Key::Left => Action::PrevSlide,
        Key::Char('h') => Action::PrevSlide,
        Key::Char('k') => Action::PrevSlide,
        Key::Char('p') => Action::PrevSlide,
        Key::Char('g') => Action::FirstSlide,
        Key::Char('G') => Action::LastSlide,
        _ => Action::NoAction,
    }
}

/// The key bindings: Right, `l`, `j`, `n` and Space go to the next slide;
/// Left, `h`, `k` and `p` to the previous one; `g` to the first and `G` to
/// the last; `q`, Esc and Ctrl+C quit; every other key does nothing.
pub proof fn law_key_bindings(press: KeyPress)
    ensures
        key_action(press) == Action::Quit <==> (press.key == Key::Char('q') || press.key == Key::Esc || (
        press.ctrl && press.key == Key::Char('c'))),
        key_action(press) == Action::NextSlide <==> !(press.ctrl && press.key == Key::Char('c')) && (
        press.key == Key::Right || press.key == Key::Char('l') || press.key == Key::Char('j')
            || press.key == Key::Char('n') || press.key == Key::Char(' ')),
        key_action(press) == Action::PrevSlide <==> (press.key == Key::Left || press.key == Key::Char(
            'h',
        ) || press.key == Key::Char('k') || press.key == Key::Char('p')),
        key_action(press) == Action::FirstSlide <==> press.key == Key::Char('g'),
        key_action(press) == Action::LastSlide <==> press.key == Key::Char('G'),
{
}

/// No key press ever produces a tick; ticks come from the clock alone.
pub proof fn law_keys_never_tick(press: KeyPress)
    ensures
        key_action(press) != Action::Tick,
{
}

/// The visual effect that introduces a new slide.
#[derive(Debug, Clone, Copy, PartialEq, Eq, Structural)]
pub enum TransitionKind {
    /// The new slide sweeps in from the right.
    SlideInFromRight,
    /// The new slide sweeps in from the left.
    SlideInFromLeft,
    /// The new slide materialises with a dissolve-style effect.
    Coalesce,
}

/// A transition: its kind and how long it runs.
#[derive(Debug, Clone, Copy, PartialEq, Eq, Structural)]
pub struct Transition {
    pub kind: TransitionKind,
    pub duration_ms: u32,
}

/// The transition of a navigation action: forward and backward moves slide in
/// from the side they come from (300 ms), jumps dissolve in (200 ms), other
/// actions have none.
pub open spec fn transition_of(action: Action) -> Option<Transition> {
    match action {
        Action::NextSlide => Some(Transition { kind: TransitionKind::SlideInFromRight, duration_ms: 300 }),
        Action::PrevSlide => Some(Transition { kind: TransitionKind::SlideInFromLeft, duration_ms: 300 }),
        Action::FirstSlide | Action::LastSlide => Some(
            Transition { kind: TransitionKind::Coalesce, duration_ms: 200 },
        ),
        _ => None,
    }
}

/// The transition effect for the given navigation action.
pub fn transition_for(action: Action) -> (t: Option<Transition>)
    ensures
        t == transition_of(action),
{
    match action {
        Action::NextSlide => Some(Transition { kind: TransitionKind::SlideInFromRight, duration_ms: 300 }),
        Action::PrevSlide => Some(Transition { kind: TransitionKind::SlideInFromLeft, duration_ms: 300 }),
        Action::FirstSlide | Action::LastSlide => Some(
            Transition { kind: TransitionKind::Coalesce, duration_ms: 200 },
        ),
        _ => None,
    }
}

/// Moving forward brings the new slide in from the right and moving back from
/// the left, both in 300 ms; jumping to the first or last slide dissolves it
/// in, in 200 ms; quitting, ticks and other keys play no transition.
pub proof fn law_transitions_per_action(action: Action)
    ensures
        transition_of(action) matches Some(t) ==> {
            &&& (t.kind == TransitionKind::SlideInFromRight) == (action == Action::NextSlide)
            &&& (t.kind == TransitionKind::SlideInFromLeft) == (action == Action::PrevSlide)
            &&& (t.kind == TransitionKind::Coalesce) == (action == Action::FirstSlide || action
                == Action::LastSlide)
            &&& t.duration_ms == (if t.kind == TransitionKind::Coalesce { 200u32 } else { 300u32 })
        },
        transition_of(action) is None <==> (action == Action::Quit || action == Action::Tick || action
            == Action::NoAction),
{
}

/// Handles one action of the main loop: updates the navigation state and
/// returns the transition to play, which there is only when the slide changed.
pub fn step(app: &mut App, action: Action) -> (t: Option<Transition>)
    ensures
        final(app).current_slide_index == index_after(
            action,
            old(app).current_slide_index as nat,
            old(app).total_slides as nat,
        ),
        final(app).total_slides == old(app).total_slides,
        final(app).should_quit == (old(app).should_quit || action == Action::Quit),
        t == (if final(app).current_slide_index != old(app).current_slide_index {
            transition_of(action)
        } else {
            None
        }),
{
    let prev_index = app.current_slide_index;
    let action = app.handle_action(action);
    if app.current_slide_index != prev_index {
        transition_for(action)
    } else {
        None
    }
}

/// A slide change always comes with a transition.
pub proof fn law_slide_change_is_animated(action: Action, index: nat, total: nat)
    requires
        index_after(action, index, total) != index,
    ensures
        transition_of(action) is Some,
{
}

/// The terminal is too small to show a slide (under 40 columns or 10 rows).
pub fn terminal_too_small(width: u16, height: u16) -> (b: bool)
    ensures
        b == (width < 40 || height < 10),
{
    width < 40 || height < 10
}

/// The footer of a frame: a quit hint when there is nothing to navigate,
/// the position indicator otherwise.
pub open spec fn footer_text_of(app: App) -> Seq<char> {
    if app.total_slides <= 1 {
        "  q to quit  "@
    } else {
        seq![' ', ' '] + progress_text_of(app.current_slide_index as nat, app.total_slides as nat)
            + seq![' ', ' ']
    }
}

/// The footer of a frame: `q to quit` for single-slide presentations (whose
/// navigation is disabled), the position indicator `N / M` otherwise.
pub fn footer_text(app: &App) -> (s: String)
    requires
        app.current_slide_index < usize::MAX,
    ensures
        s@ == footer_text_of(*app),
{
    if app.is_single_slide() {
        String::from_str("  q to quit  ")
    } else {
        let mut s = String::new();
        crate::text::push_char(&mut s, ' ');
        crate::text::push_char(&mut s, ' ');
        let progress = app.progress_text();
        s.append(progress.as_str());
        crate::text::push_char(&mut s, ' ');
        crate::text::push_char(&mut s, ' ');
        assert(s@ =~= footer_text_of(*app));
        s
    }
}

} // verus!
