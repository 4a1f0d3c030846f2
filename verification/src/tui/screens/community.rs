//! The screen that reads the community cards of a betting round.

use crate::cards::card::Card;
use crate::game::state::GameState;
use crate::game::variant::{BettingRound, GameVariant};
use crate::tui::card_input::{
    all_confirmed, confirmed_cards, confirmed_part, input_step, lemma_confirmed_update,
    lemma_step_confirms_unused, multi_key_effect, slot_states, InputState, MultiCardInput,
};
use crate::tui::keys::Key;
use vstd::prelude::*;

verus! {

/// The community-card screen of one round.
pub struct CommunityScreen {
    pub round: BettingRound,
    pub variant: GameVariant,
    pub existing_community: Vec<Card>,
    pub input: MultiCardInput,
    pub all_known: Vec<Card>,
}

/// What the community-card screen asks of the application.
pub enum CommunityAction {
    /// Nothing to do: the screen stays.
    Idle,
    Cards(Vec<Card>),
    Back,
}

/// What a key does on the community-card screen (see
/// `CommunityScreen::handle_key`): the action `r`, and the screen after it.
pub open spec fn community_key_effect(
    before: CommunityScreen,
    key: Key,
    after: CommunityScreen,
    r: CommunityAction,
) -> bool {
    if key == Key::Esc || key == Key::Char('b') {
        r is Back && after == before
    } else if key == Key::Enter && all_confirmed(before.input.slots@) {
        &&& after == before
        &&& r matches CommunityAction::Cards(v)
        &&& v@ == confirmed_cards(slot_states(before.input.slots@))
    } else {
        &&& r is Idle
        &&& multi_key_effect(before.input, key, before.all_known@, after.input)
        &&& after.round == before.round
        &&& after.variant == before.variant
        &&& after.existing_community == before.existing_community
        &&& after.all_known == before.all_known
    }
}

impl CommunityScreen {
    /// The screen for the state's current round: one empty slot per card the
    /// round reveals; the hole cards and the board are known.
    pub fn new(state: &GameState) -> (s: CommunityScreen)
        ensures
            s.round == state.current_round,
            s.variant == state.variant,
            s.existing_community@ == state.community_cards@,
            s.all_known@ == state.hole_cards@ + state.community_cards@,
            s.input.slots@.len() == state.current_round.spec_revealed(),
            forall|i: int|
                0 <= i < s.input.slots@.len() ==> (#[trigger] s.input.slots@[i]).state
                    == InputState::AwaitingRank && s.input.slots@[i].error is None,
            s.input.active_slot == 0,
            s.input.label@ == state.current_round.spec_name(),
    {
        let round = state.current_round;
        let cards_this_round = round.community_cards_revealed();
        let mut all_known = state.hole_cards.clone();
        let mut i: usize = 0;
        while i < state.community_cards.len()
            invariant
                i <= state.community_cards@.len(),
                all_known@ == state.hole_cards@ + state.community_cards@.take(i as int),
            decreases state.community_cards@.len() - i,
        {
            proof {
                assert(state.community_cards@.take(i + 1) =~= state.community_cards@.take(
                    i as int,
                ).push(state.community_cards@[i as int]));
            }
            all_known.push(state.community_cards[i]);
            i += 1;
        }
        proof {
            assert(state.community_cards@.take(i as int) =~= state.community_cards@);
        }
        CommunityScreen {
            round,
            variant: state.variant,
            existing_community: state.community_cards.clone(),
            input: MultiCardInput::new(cards_this_round, round.name()),
            all_known,
        }
    }

    /// Esc or `b` goes back; Enter with every slot filled hands over the
    /// cards (none when the round reveals none); any other key goes to the
    /// slots, with the known cards as those already in use.
    pub fn handle_key(&mut self, key: Key) -> (r: CommunityAction)
        ensures
            community_key_effect(*old(self), key, *final(self), r),
    {
        if key == Key::Esc || key == Key::Char('b') {
            return CommunityAction::Back;
        }
        if key == Key::Enter && self.input.all_complete() {
            return CommunityAction::Cards(self.input.cards());
        }
        let known = self.all_known.clone();
        self.input.handle_key(key, known.as_slice());
        CommunityAction::Idle
    }
}

/// No card of `cards` is held in `known`.
pub open spec fn none_known(cards: Seq<Card>, known: Seq<Card>) -> bool {
    forall|i: int| 0 <= i < cards.len() ==> !known.contains(#[trigger] cards[i])
}

/// The board cards entered on the screen are never among the known cards
/// (the hole cards and the board so far): whatever key is pressed, entered
/// cards that avoided them still do.
pub proof fn lemma_community_avoids_known(
    before: CommunityScreen,
    key: Key,
    after: CommunityScreen,
    r: CommunityAction,
)
    requires
        none_known(confirmed_cards(slot_states(before.input.slots@)), before.all_known@),
        community_key_effect(before, key, after, r),
    ensures
        none_known(confirmed_cards(slot_states(after.input.slots@)), after.all_known@),
{
    broadcast use vstd::seq_lib::group_to_multiset_ensures;
    broadcast use vstd::multiset::group_multiset_axioms;

    let b = before.input;
    if !(key == Key::Esc || key == Key::Char('b')) && !(key == Key::Enter && all_confirmed(b.slots@))
        && b.active_slot < b.slots@.len() {
        let a = b.active_slot as int;
        let used = before.all_known@;
        let st = slot_states(b.slots@);
        let x = input_step(st[a], key, used).0;
        let st2 = slot_states(after.input.slots@);
        assert(st[a] == b.slots@[a].state);
        assert(st2 == st.update(a, x));
        lemma_step_confirms_unused(st[a], key, used);
        lemma_confirmed_update(st, a, x);
        let old_cards = confirmed_cards(st);
        let new_cards = confirmed_cards(st2);
        assert forall|i: int| 0 <= i < new_cards.len() implies !used.contains(#[trigger] new_cards[i]) by {
            let y = new_cards[i];
            assert(new_cards.to_multiset().count(y) > 0);
            assert(new_cards.to_multiset().add(confirmed_part(st[a])).count(y) == old_cards.to_multiset().add(
                confirmed_part(x),
            ).count(y));
            if old_cards.to_multiset().count(y) > 0 {
                assert(old_cards.contains(y));
                let k = choose|k: int| 0 <= k < old_cards.len() && old_cards[k] == y;
                assert(!used.contains(old_cards[k]));
            } else {
                assert(confirmed_part(x).count(y) > 0);
                match x {
                    InputState::Confirmed(c) => {
                        assert(y == c);
                        if st[a] == x {
                            assert(confirmed_part(st[a]).count(y) > 0);
                            assert(old_cards.to_multiset().add(confirmed_part(x)).count(y) == 1);
                            assert(false);
                        }
                    },
                    _ => {},
                }
            }
        }
    }
}

} // verus!
