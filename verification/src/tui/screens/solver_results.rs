//! The screen that shows a solve's results: only its scrolling is state.

use crate::tui::keys::Key;
use vstd::prelude::*;

verus! {

/// What the results screen asks of the application.
#[derive(Clone, Copy, Debug, PartialEq, Eq, Structural)]
pub enum SolverResultsAction {
    /// Nothing to do: the screen stays.
    Idle,
    Back,
    Reconfigure,
}

/// The results screen.
pub struct SolverResultsScreen {
    scroll_offset: usize,
}

/// What a key does on the results screen: Esc or `b` goes back, `r`
/// reconfigures, Up/`k` scrolls up (not past the top), Down/`j` scrolls
/// down.
pub open spec fn results_key_effect(
    before: SolverResultsScreen,
    key: Key,
    after: SolverResultsScreen,
    r: SolverResultsAction,
) -> bool {
    &&& r == if key == Key::Esc || key == Key::Char('b') {
        SolverResultsAction::Back
    } else if key == Key::Char('r') {
        SolverResultsAction::Reconfigure
    } else {
        SolverResultsAction::Idle
    }
    &&& after.spec_scroll() == if key == Key::Esc || key == Key::Char('b') || key
        == Key::Char('r') {
        before.spec_scroll()
    } else if key == Key::Up || key == Key::Char('k') {
        if before.spec_scroll() > 0 {
            before.spec_scroll() - 1
        } else {
            0
        }
    } else if key == Key::Down || key == Key::Char('j') {
        before.spec_scroll() + 1
    } else {
        before.spec_scroll()
    }
}

impl SolverResultsScreen {
    /// How far the results are scrolled.
    pub closed spec fn spec_scroll(self) -> int {
        self.scroll_offset as int
    }

    pub fn new() -> (s: SolverResultsScreen)
        ensures
            s.spec_scroll() == 0,
    {
        SolverResultsScreen { scroll_offset: 0 }
    }

    /// How far the results are scrolled.
    pub fn scroll_offset(&self) -> (r: usize)
        ensures
            r as int == self.spec_scroll(),
    {
        self.scroll_offset
    }

    /// Esc or `b` goes back, `r` reconfigures; Up/`k` scrolls up (not past
    /// the top), Down/`j` scrolls down.
    pub fn handle_key(&mut self, key: Key) -> (r: SolverResultsAction)
        requires
            (key == Key::Down || key == Key::Char('j')) ==> old(self).spec_scroll() < usize::MAX,
        ensures
            results_key_effect(*old(self), key, *final(self), r),
    {
        if key == Key::Esc || key == Key::Char('b') {
            SolverResultsAction::Back
        } else if key == Key::Char('r') {
            SolverResultsAction::Reconfigure
        } else if key == Key::Up || key == Key::Char('k') {
            if self.scroll_offset > 0 {
                self.scroll_offset -= 1;
            }
            SolverResultsAction::Idle
        } else if key == Key::Down || key == Key::Char('j') {
            self.scroll_offset += 1;
            SolverResultsAction::Idle
        } else {
            SolverResultsAction::Idle
        }
    }
}

} // verus!
