//! The screen that shows the odds of the current hand.

use crate::game::state::GameState;
use crate::game::variant::GameVariant;
use crate::tui::keys::Key;
use vstd::prelude::*;

verus! {

/// What the odds screen asks of the application.
#[derive(Clone, Copy, Debug, PartialEq, Eq, Structural)]
pub enum OddsAction {
    /// Nothing to do: the screen stays.
    Idle,
    NextRound,
    Restart,
    Back,
    Settings,
}

/// The odds screen.
pub struct OddsDisplayScreen {
    pub variant: GameVariant,
}

/// What a key asks of the application on the odds screen: Enter or `n`
/// moves to the next round while the hand is not complete, `r` starts a
/// new hand, Esc or `b` goes back, `s` opens the settings.
pub open spec fn odds_action(key: Key, state: GameState) -> OddsAction {
    if (key == Key::Enter || key == Key::Char('n')) && !state.spec_is_complete() {
        OddsAction::NextRound
    } else if key == Key::Char('r') {
        OddsAction::Restart
    } else if key == Key::Esc || key == Key::Char('b') {
        OddsAction::Back
    } else if key == Key::Char('s') {
        OddsAction::Settings
    } else {
        OddsAction::Idle
    }
}

impl OddsDisplayScreen {
    pub fn new(variant: GameVariant) -> (s: OddsDisplayScreen)
        ensures
            s.variant == variant,
    {
        OddsDisplayScreen { variant }
    }

    /// Enter or `n` moves to the next round while the hand is not complete;
    /// `r` starts a new hand, Esc or `b` goes back, `s` opens the settings.
    pub fn handle_key(&self, key: Key, state: &GameState) -> (r: OddsAction)
        ensures
            r == odds_action(key, *state),
    {
        if (key == Key::Enter || key == Key::Char('n')) && !state.is_complete() {
            OddsAction::NextRound
        } else if key == Key::Char('r') {
            OddsAction::Restart
        } else if key == Key::Esc || key == Key::Char('b') {
            OddsAction::Back
        } else if key == Key::Char('s') {
            OddsAction::Settings
        } else {
            OddsAction::Idle
        }
    }
}

} // verus!
