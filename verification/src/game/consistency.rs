//! How the facts about each variant agree with one another: the cards a
//! player holds, the cards each opponent is dealt, the betting rounds, the
//! texts that name and describe the variant, and the size of the table.

use crate::cards::card::Card;
use crate::game::state::unknown_per_opponent;
use crate::game::variant::{variant_rounds, BettingRound, GameVariant};
use crate::sim::engine::{holdem_seven, omaha_nine};
use vstd::prelude::*;

verus! {

/// The number a decimal digit character stands for.
pub open spec fn digit_value(c: char) -> int {
    c as int - '0' as int
}

/// The description of every variant opens with the number of cards a
/// player holds ("2 hole cards", "4 hole cards", "7 cards dealt", "5 hole
/// cards"), and the Hold'em games go on to the five community cards.
pub proof fn lemma_hole_count_announced(v: GameVariant)
    ensures
        v.spec_hole_card_count() == digit_value(v.spec_description()[0]),
        v.spec_community_card_count() > 0 ==> digit_value(v.spec_description()[15])
            == v.spec_community_card_count(),
{
    reveal_strlit("2 hole cards + 5 community cards. Best 5-card hand wins.");
    reveal_strlit("4 hole cards + 5 community cards. Must use exactly 2 hole + 3 board.");
    reveal_strlit("7 cards dealt individually (3 down, 4 up). No community cards.");
    reveal_strlit("5 hole cards. No community cards. Can draw new cards.");
}

/// The stud and draw names open with the number of cards a player holds:
/// "7-Card Stud", "5-Card Draw".
pub proof fn lemma_hole_count_named(v: GameVariant)
    requires
        v == GameVariant::SevenCardStud || v == GameVariant::FiveCardDraw,
    ensures
        v.spec_hole_card_count() == digit_value(v.spec_name()[0]),
{
    reveal_strlit("7-Card Stud");
    reveal_strlit("5-Card Draw");
}

/// Every opponent is dealt, hidden, as many cards as a player of the
/// variant holds: all hands at the showdown have the same size.
pub proof fn lemma_opponents_hold_what_player_holds(v: GameVariant)
    ensures
        unknown_per_opponent(v) == v.spec_hole_card_count(),
{
}

/// The stud rounds are the streets from the third to the seventh, in order
/// and none skipped: the `i`-th round is named for street `3 + i`. A stud
/// player is dealt three cards on third street and one on each later
/// street, so holds the number of the last street: seven.
pub proof fn lemma_stud_rounds_are_streets()
    ensures
        forall|i: int|
            0 <= i < variant_rounds(GameVariant::SevenCardStud).len() ==> digit_value(
                (#[trigger] variant_rounds(GameVariant::SevenCardStud)[i]).spec_name()[0],
            ) == 3 + i,
        GameVariant::SevenCardStud.spec_hole_card_count() == 3 + variant_rounds(
            GameVariant::SevenCardStud,
        ).len() - 1,
        GameVariant::SevenCardStud.spec_hole_card_count() == digit_value(
            variant_rounds(GameVariant::SevenCardStud).last().spec_name()[0],
        ),
        variant_rounds(GameVariant::SevenCardStud).last().spec_name() == "7th Street (Showdown)"@,
{
    reveal_strlit("3rd Street");
    reveal_strlit("4th Street");
    reveal_strlit("5th Street");
    reveal_strlit("6th Street");
    reveal_strlit("7th Street (Showdown)");
    let rs = variant_rounds(GameVariant::SevenCardStud);
    assert forall|i: int| 0 <= i < rs.len() implies digit_value((#[trigger] rs[i]).spec_name()[0]) == 3
        + i by {
        if i == 0 {
            assert(rs[i] == BettingRound::StudStreet3);
        } else if i == 1 {
            assert(rs[i] == BettingRound::StudStreet4);
        } else if i == 2 {
            assert(rs[i] == BettingRound::StudStreet5);
        } else if i == 3 {
            assert(rs[i] == BettingRound::StudStreet6);
        } else {
            assert(rs[i] == BettingRound::StudStreet7);
        }
    }
}

/// A complete Hold'em or Omaha hand, with as many hole cards as the variant
/// deals and a full board, is evaluated on all of its cards: the cards the
/// evaluation chooses from are the hole cards followed by the board.
pub proof fn lemma_complete_hand_uses_all_cards(v: GameVariant, hole: Seq<Card>, board: Seq<Card>)
    requires
        hole.len() == v.spec_hole_card_count(),
        board.len() == v.spec_community_card_count(),
    ensures
        v == GameVariant::TexasHoldem ==> holdem_seven(hole, board) == hole + board,
        v == GameVariant::OmahaHoldem ==> omaha_nine(hole, board) == hole + board,
{
    if v == GameVariant::TexasHoldem {
        assert(hole.take(2) =~= hole);
        assert(board.take(5) =~= board);
    }
    if v == GameVariant::OmahaHoldem {
        assert(hole.take(4) =~= hole);
        assert(board.take(5) =~= board);
    }
}

/// Omaha is played at a Hold'em table: both seat the same number of
/// players. Every variant seats at least two, and a full table can be dealt
/// from one deck: every player's hole cards and the board fit in 52 cards.
/// Stud, with no board, seats as many as one deck can deal seven cards to.
pub proof fn lemma_table_sizes(v: GameVariant)
    ensures
        GameVariant::OmahaHoldem.spec_max_players() == GameVariant::TexasHoldem.spec_max_players(),
        v.spec_max_players() >= 2,
        v.spec_max_players() * v.spec_hole_card_count() + v.spec_community_card_count() <= 52,
        (GameVariant::SevenCardStud.spec_max_players() + 1)
            * GameVariant::SevenCardStud.spec_hole_card_count() > 52,
{
    match v {
        GameVariant::TexasHoldem => assert(9 * 2 + 5 <= 52),
        GameVariant::OmahaHoldem => assert(9 * 4 + 5 <= 52),
        GameVariant::SevenCardStud => assert(7 * 7 <= 52),
        GameVariant::FiveCardDraw => assert(6 * 5 <= 52),
    }
    assert(8 * 7 > 52);
}

} // verus!
