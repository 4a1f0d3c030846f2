//! The opening screen: choose a variant, or the solver.

use crate::game::variant::GameVariant;
use crate::tui::keys::Key;
use vstd::prelude::*;

verus! {

/// What the opening screen chose.
pub enum VariantSelectResult {
    Variant(GameVariant),
    GtoSolver,
}

/// Entries on the opening screen: the four variants, then the solver.
pub const TOTAL_ITEMS: usize = 5;

/// The variant listed at position `i` (of the first four).
pub open spec fn listed_variant(i: int) -> GameVariant {
    if i == 0 {
        GameVariant::TexasHoldem
    } else if i == 1 {
        GameVariant::OmahaHoldem
    } else if i == 2 {
        GameVariant::SevenCardStud
    } else {
        GameVariant::FiveCardDraw
    }
}

/// What a key does on the opening screen: Up/`k` and Down/`j` move the
/// focus within the entries; Enter or space chooses the entry in focus; `g`
/// chooses the solver; other keys do nothing.
pub open spec fn variant_key_effect(
    before: VariantSelectScreen,
    key: Key,
    after: VariantSelectScreen,
    r: Option<VariantSelectResult>,
) -> bool {
    if key == Key::Up || key == Key::Char('k') {
        &&& r is None
        &&& after.selected == if before.selected > 0 {
            (before.selected - 1) as usize
        } else {
            before.selected
        }
    } else if key == Key::Down || key == Key::Char('j') {
        &&& r is None
        &&& after.selected == if before.selected < TOTAL_ITEMS - 1 {
            (before.selected + 1) as usize
        } else {
            before.selected
        }
    } else if key == Key::Enter || key == Key::Char(' ') {
        &&& after == before
        &&& r matches Some(c)
        &&& if before.selected < 4 {
            c matches VariantSelectResult::Variant(v) && v == listed_variant(
                before.selected as int,
            )
        } else {
            c is GtoSolver
        }
    } else if key == Key::Char('g') {
        after == before && (r matches Some(c) && c is GtoSolver)
    } else {
        r is None && after == before
    }
}

/// The opening screen: the entry in focus. The list widget that shows it
/// follows `selected`.
pub struct VariantSelectScreen {
    pub selected: usize,
}

impl VariantSelectScreen {
    pub fn new() -> (s: VariantSelectScreen)
        ensures
            s.selected == 0,
    {
        VariantSelectScreen { selected: 0 }
    }

    /// Up/`k` and Down/`j` move the focus within the entries; Enter or space
    /// chooses the entry in focus; `g` chooses the solver.
    pub fn handle_key(&mut self, key: Key) -> (r: Option<VariantSelectResult>)
        ensures
            variant_key_effect(*old(self), key, *final(self), r),
    {
        if key == Key::Up || key == Key::Char('k') {
            if self.selected > 0 {
                self.selected -= 1;
            }
        } else if key == Key::Down || key == Key::Char('j') {
            if self.selected < TOTAL_ITEMS - 1 {
                self.selected += 1;
            }
        } else if key == Key::Enter || key == Key::Char(' ') {
            if self.selected < GameVariant::ALL.len() {
                return Some(VariantSelectResult::Variant(GameVariant::ALL[self.selected]));
            } else {
                return Some(VariantSelectResult::GtoSolver);
            }
        } else if key == Key::Char('g') {
            return Some(VariantSelectResult::GtoSolver);
        }
        None
    }
}

impl Default for VariantSelectScreen {
    fn default() -> (s: VariantSelectScreen)
        ensures
            s.selected == 0,
    {
        VariantSelectScreen::new()
    }
}

} // verus!
