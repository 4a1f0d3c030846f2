//! The screen that reads the player's hole cards and the number of opponents.

use crate::cards::card::Card;
use crate::game::variant::GameVariant;
use crate::tui::card_input::{
    all_confirmed, confirmed_cards, input_step, lemma_row_keeps_cards_apart, multi_key_effect,
    slot_states, InputState, MultiCardInput,
};
use crate::tui::keys::Key;
use vstd::prelude::*;

verus! {

/// The hole-card screen.
pub struct HoleCardsScreen {
    pub variant: GameVariant,
    pub input: MultiCardInput,
    pub opponent_count: usize,
    pub editing_opponents: bool,
}

/// The hole-card screen after a key that changes only the opponent count or
/// the focus.
pub open spec fn hole_screen_with(
    s: HoleCardsScreen,
    opponent_count: usize,
    editing_opponents: bool,
) -> HoleCardsScreen {
    HoleCardsScreen { opponent_count, editing_opponents, ..s }
}

/// What a key does on the hole-card screen (see `HoleCardsScreen::handle_key`):
/// the result `r`, and the screen after it.
pub open spec fn hole_key_effect(
    before: HoleCardsScreen,
    key: Key,
    after: HoleCardsScreen,
    r: Option<(Vec<Card>, usize)>,
) -> bool {
    if key == Key::Esc || key == Key::Char('b') {
        r is None && after == before
    } else if key == Key::Enter && all_confirmed(before.input.slots@) {
        &&& after == before
        &&& r matches Some(p)
        &&& p.0@ == confirmed_cards(slot_states(before.input.slots@))
        &&& p.1 == before.opponent_count
    } else {
        &&& r is None
        &&& after.variant == before.variant
        &&& if key == Key::Tab && !before.editing_opponents {
            if all_confirmed(before.input.slots@) {
                after == hole_screen_with(before, before.opponent_count, true)
            } else {
                &&& multi_key_effect(before.input, key, Seq::empty(), after.input)
                &&& after.opponent_count == before.opponent_count
                &&& !after.editing_opponents
            }
        } else if key == Key::Tab {
            after == hole_screen_with(before, before.opponent_count, false)
        } else if key == Key::Up && before.editing_opponents {
            after == hole_screen_with(
                before,
                if before.opponent_count < before.variant.spec_max_players() - 1 {
                    (before.opponent_count + 1) as usize
                } else {
                    before.opponent_count
                },
                true,
            )
        } else if key == Key::Down && before.editing_opponents {
            after == hole_screen_with(
                before,
                if before.opponent_count > 1 {
                    (before.opponent_count - 1) as usize
                } else {
                    before.opponent_count
                },
                true,
            )
        } else if before.editing_opponents {
            after == before
        } else {
            &&& multi_key_effect(
                before.input,
                key,
                confirmed_cards(slot_states(before.input.slots@)),
                after.input,
            )
            &&& after.opponent_count == before.opponent_count
            &&& !after.editing_opponents
        }
    }
}

impl HoleCardsScreen {
    /// One empty slot per hole card of the variant, one opponent, focus on
    /// the cards.
    pub fn new(variant: GameVariant) -> (s: HoleCardsScreen)
        ensures
            s.variant == variant,
            s.input.slots@.len() == variant.spec_hole_card_count(),
            forall|i: int|
                0 <= i < s.input.slots@.len() ==> (#[trigger] s.input.slots@[i]).state
                    == InputState::AwaitingRank && s.input.slots@[i].error is None,
            s.input.active_slot == 0,
            s.input.label@ == "Your Hole Cards"@,
            s.opponent_count == 1,
            !s.editing_opponents,
    {
        let count = variant.hole_card_count();
        HoleCardsScreen {
            variant,
            input: MultiCardInput::new(count, "Your Hole Cards"),
            opponent_count: 1,
            editing_opponents: false,
        }
    }

    /// Esc or `b`: nothing (the application goes back). Enter with every
    /// card in: the cards and the opponent count. Tab switches the focus to
    /// the opponents once every card is in, else moves between slots; with
    /// the focus on the opponents, Tab returns it, Up and Down change the
    /// count within 1 and one less than the table size. Any other key goes to
    /// the slots, with the cards already confirmed as those in use.
    pub fn handle_key(&mut self, key: Key) -> (r: Option<(Vec<Card>, usize)>)
        ensures
            hole_key_effect(*old(self), key, *final(self), r),
    {
        if key == Key::Esc || key == Key::Char('b') {
            return None;
        }
        if key == Key::Enter && self.input.all_complete() {
            return Some((self.input.cards(), self.opponent_count));
        }
        if key == Key::Tab && !self.editing_opponents {
            if self.input.all_complete() {
                self.editing_opponents = true;
            } else {
                let none: Vec<Card> = Vec::new();
                self.input.handle_key(key, none.as_slice());
                proof {
                    assert(none@ =~= Seq::<Card>::empty());
                }
            }
        } else if key == Key::Tab {
            self.editing_opponents = false;
        } else if key == Key::Up && self.editing_opponents {
            let max = self.variant.max_players() - 1;
            if self.opponent_count < max {
                self.opponent_count += 1;
            }
        } else if key == Key::Down && self.editing_opponents {
            if self.opponent_count > 1 {
                self.opponent_count -= 1;
            }
        } else if !self.editing_opponents {
            let already = self.input.cards();
            self.input.handle_key(key, already.as_slice());
        }
        None
    }
}

/// The hole cards on the screen never repeat a card: whatever key is
/// pressed, cards that were pairwise different stay so (every new card is
/// checked against the cards already entered).
pub proof fn lemma_hole_cards_stay_apart(
    before: HoleCardsScreen,
    key: Key,
    after: HoleCardsScreen,
    r: Option<(Vec<Card>, usize)>,
)
    requires
        confirmed_cards(slot_states(before.input.slots@)).no_duplicates(),
        hole_key_effect(before, key, after, r),
    ensures
        confirmed_cards(slot_states(after.input.slots@)).no_duplicates(),
{
    let used = confirmed_cards(slot_states(before.input.slots@));
    if key == Key::Tab && !before.editing_opponents && !all_confirmed(before.input.slots@) {
        // Tab changes no slot's state.
        let b = before.input;
        if b.active_slot < b.slots@.len() {
            let a = b.active_slot as int;
            let st = slot_states(b.slots@);
            assert(st[a] == b.slots@[a].state);
            assert(input_step(st[a], key, Seq::empty()).0 == st[a]);
            assert(st.update(a, st[a]) =~= st);
        }
    } else if !(key == Key::Esc || key == Key::Char('b')) && !(key == Key::Enter && all_confirmed(
        before.input.slots@,
    )) && key != Key::Tab && !(key == Key::Up && before.editing_opponents) && !(key == Key::Down
        && before.editing_opponents) && !before.editing_opponents {
        lemma_row_keeps_cards_apart(before.input, key, after.input);
    }
}

} // verus!
