//! Slide navigation state and the input actions that drive it.

use vstd::prelude::*;
use crate::text::{decimal, push_char, push_decimal};

verus! {

/// Actions that can be triggered by user input or system events.
#[derive(Debug, Clone, Copy, PartialEq, Eq, Structural)]
pub enum Action {
    /// Quit the application.
    Quit,
    /// Navigate to the next slide.
    NextSlide,
    /// Navigate to the previous slide.
    PrevSlide,
    /// Jump to the first slide.
    FirstSlide,
    /// Jump to the last slide.
    LastSlide,
    /// A tick event (used for animation timing).
    Tick,
    /// No action to take.
    NoAction,
}

/// The main application state for slide navigation.
///
/// Tracks the current slide index, total number of slides, and whether
/// the application should quit. The navigation methods clamp the index
/// to valid bounds to prevent out-of-range access.
#[derive(Debug)]
pub struct App {
    /// The index of the currently displayed slide (0-based).
    pub current_slide_index: usize,
    /// The total number of slides in the presentation.
    pub total_slides: usize,
    /// Whether the application should quit on the next loop iteration.
    pub should_quit: bool,
}

/// The index shows a slide that exists (or is 0 when there is none).
pub open spec fn index_in_range(index: nat, total: nat) -> bool {
    if total == 0 {
        index == 0
    } else {
        index < total
    }
}

/// The index after moving forward: one more, but never past the last slide.
pub open spec fn next_index(index: nat, total: nat) -> nat {
    if total > 0 && index + 1 < total {
        index + 1
    } else {
        index
    }
}

/// The index after moving back: one less, but never below the first slide.
pub open spec fn prev_index(index: nat) -> nat {
    if index > 0 {
        (index - 1) as nat
    } else {
        index
    }
}

/// The index of the last slide (0 when there is none, and then unchanged).
pub open spec fn last_index(index: nat, total: nat) -> nat {
    if total > 0 {
        (total - 1) as nat
    } else {
        index
    }
}

/// The index after handling `action`.
pub open spec fn index_after(action: Action, index: nat, total: nat) -> nat {
    match action {
        Action::NextSlide => next_index(index, total),
        Action::PrevSlide => prev_index(index),
        Action::FirstSlide => 0,
        Action::LastSlide => last_index(index, total),
        _ => index,
    }
}

/// The progress text `"N / M"` for slide index `index` of `total`.
pub open spec fn progress_text_of(index: nat, total: nat) -> Seq<char> {
    decimal(index + 1) + seq![' ', '/', ' '] + decimal(total)
}

impl App {
    /// Well-formedness: the index points at an existing slide.
    pub open spec fn well_formed(&self) -> bool {
        index_in_range(self.current_slide_index as nat, self.total_slides as nat)
    }

    /// Creates a new `App` with the given number of slides, starting at slide 0.
    pub fn new(total_slides: usize) -> (app: Self)
        ensures
            app.current_slide_index == 0,
            app.total_slides == total_slides,
            !app.should_quit,
            app.well_formed(),
    {
        App { current_slide_index: 0, total_slides, should_quit: false }
    }

    /// Advance to the next slide, clamping at the last slide.
    pub fn next_slide(&mut self)
        ensures
            final(self).current_slide_index == next_index(
                old(self).current_slide_index as nat,
                old(self).total_slides as nat,
            ),
            final(self).total_slides == old(self).total_slides,
            final(self).should_quit == old(self).should_quit,
    {
        if self.total_slides > 0 && self.current_slide_index < self.total_slides - 1 {
            self.current_slide_index += 1;
        }
    }

    /// Go back to the previous slide, clamping at the first slide.
    pub fn prev_slide(&mut self)
        ensures
            final(self).current_slide_index == prev_index(old(self).current_slide_index as nat),
            final(self).total_slides == old(self).total_slides,
            final(self).should_quit == old(self).should_quit,
    {
        if self.current_slide_index > 0 {
            self.current_slide_index -= 1;
        }
    }

    /// Jump to the first slide.
    pub fn first_slide(&mut self)
        ensures
            final(self).current_slide_index == 0,
            final(self).total_slides == old(self).total_slides,
            final(self).should_quit == old(self).should_quit,
    {
        self.current_slide_index = 0;
    }

    /// Jump to the last slide.
    pub fn last_slide(&mut self)
        ensures
            final(self).current_slide_index == last_index(
                old(self).current_slide_index as nat,
                old(self).total_slides as nat,
            ),
            final(self).total_slides == old(self).total_slides,
            final(self).should_quit == old(self).should_quit,
    {
        if self.total_slides > 0 {
            self.current_slide_index = self.total_slides - 1;
        }
    }

    /// Handle an [`Action`] by dispatching to the appropriate navigation method.
    ///
    /// Returns the action that was handled, which callers can use to trigger
    /// transition effects or other side effects.
    pub fn handle_action(&mut self, action: Action) -> (r: Action)
        ensures
            r == action,
            final(self).current_slide_index == index_after(
                action,
                old(self).current_slide_index as nat,
                old(self).total_slides as nat,
            ),
            final(self).total_slides == old(self).total_slides,
            final(self).should_quit == (old(self).should_quit || action == Action::Quit),
    {
        match action {
            Action::Quit => {
                self.should_quit = true;
            },
            Action::NextSlide => {
                self.next_slide();
            },
            Action::PrevSlide => {
                self.prev_slide();
            },
            Action::FirstSlide => {
                self.first_slide();
            },
            Action::LastSlide => {
                self.last_slide();
            },
            Action::Tick | Action::NoAction => {},
        }
        action
    }

    /// Whether the presentation has at most one slide, so that navigation does nothing.
    pub fn is_single_slide(&self) -> (b: bool)
        ensures
            b == (self.total_slides <= 1),
    {
        self.total_slides <= 1
    }

    /// The position indicator `"N / M"`: the 1-based current slide over the total.
    pub fn progress_text(&self) -> (s: String)
        requires
            self.current_slide_index < usize::MAX,
        ensures
            s@ == progress_text_of(self.current_slide_index as nat, self.total_slides as nat),
    {
        let mut s = String::new();
        push_decimal(&mut s, self.current_slide_index + 1);
        push_char(&mut s, ' ');
        push_char(&mut s, '/');
        push_char(&mut s, ' ');
        push_decimal(&mut s, self.total_slides);
        assert(s@ =~= progress_text_of(self.current_slide_index as nat, self.total_slides as nat));
        s
    }
}

/// Every action keeps the index pointing at an existing slide.
pub proof fn law_actions_keep_index_in_range(action: Action, index: nat, total: nat)
    requires
        index_in_range(index, total),
    ensures
        index_in_range(index_after(action, index, total), total),
{
}

/// Moving forward and then back returns to the same slide, unless the first
/// move was stopped at the last slide.
pub proof fn law_next_then_prev(index: nat, total: nat)
    requires
        index + 1 < total,
    ensures
        prev_index(next_index(index, total)) == index,
{
}

/// Moving back and then forward returns to the same slide, unless the first
/// move was stopped at the first slide.
pub proof fn law_prev_then_next(index: nat, total: nat)
    requires
        0 < index < total,
    ensures
        next_index(prev_index(index), total) == index,
{
}

/// Moving forward from the last slide stays there; moving back from the first stays there.
pub proof fn law_clamped_at_ends(total: nat)
    requires
        total > 0,
    ensures
        next_index((total - 1) as nat, total) == total - 1,
        prev_index(0) == 0,
{
}

/// Repeated jumps to the first or last slide land where a single one does.
pub proof fn law_jumps_idempotent(index: nat, total: nat)
    ensures
        last_index(last_index(index, total), total) == last_index(index, total),
        index_after(Action::FirstSlide, index_after(Action::FirstSlide, index, total), total)
            == 0,
{
}

/// With at most one slide, no navigation action moves away from a well-formed index.
pub proof fn law_single_slide_is_still(action: Action, index: nat, total: nat)
    requires
        total <= 1,
        index_in_range(index, total),
    ensures
        index_after(action, index, total) == index,
{
}

} // verus!
