//! The state of a hand: variant, known cards, opponents and betting round.

use crate::cards::card::Card;
use crate::game::variant::{variant_rounds, BettingRound, GameVariant};
use vstd::prelude::*;

verus! {

/// The full game state shared between the front end, the simulation and the rules.
#[derive(Clone, Debug)]
pub struct GameState {
    pub variant: GameVariant,
    /// The player's hole cards (known exactly).
    pub hole_cards: Vec<Card>,
    /// Community cards visible on the board (Hold'em).
    pub community_cards: Vec<Card>,
    /// Number of opponents (not counting the player).
    pub opponent_count: usize,
    /// Current betting round.
    pub current_round: BettingRound,
    /// For Stud: face-up cards visible for each opponent (indexed by opponent).
    pub stud_visible: Vec<Vec<Card>>,
}

/// The concatenation of the card lists in `vs`.
pub open spec fn flatten_cards(vs: Seq<Vec<Card>>) -> Seq<Card>
    decreases vs.len(),
{
    if vs.len() == 0 {
        Seq::empty()
    } else {
        flatten_cards(vs.drop_last()) + vs.last()@
    }
}

/// Hidden hole cards per opponent.
pub open spec fn unknown_per_opponent(v: GameVariant) -> int {
    match v {
        GameVariant::TexasHoldem => 2,
        GameVariant::OmahaHoldem => 4,
        GameVariant::FiveCardDraw => 5,
        GameVariant::SevenCardStud => 7,
    }
}

impl GameState {
    /// Community cards still to come: the variant's board size less what is
    /// already on the board, or zero.
    pub open spec fn spec_community_remaining(self) -> int {
        let d = self.variant.spec_community_card_count() - self.community_cards.len();
        if d > 0 {
            d
        } else {
            0
        }
    }

    /// Cards still needed from the deck per simulation run: the community
    /// cards to come and every opponent's unknown hole cards.
    pub open spec fn spec_cards_to_simulate(self) -> int {
        self.spec_community_remaining() + self.opponent_count * unknown_per_opponent(self.variant)
    }

    /// The number of cards a simulation run needs fits in a `usize`.
    pub open spec fn simulation_size_fits(self) -> bool {
        self.spec_cards_to_simulate() <= usize::MAX
    }

    /// A fresh hand of `variant`: no cards, one opponent, first round, six
    /// empty stud rows.
    pub fn new(variant: GameVariant) -> (s: GameState)
        ensures
            s.variant == variant,
            s.hole_cards@.len() == 0,
            s.community_cards@.len() == 0,
            s.opponent_count == 1,
            s.current_round == variant_rounds(variant)[0],
            s.stud_visible@.len() == 6,
            forall|i: int| 0 <= i < 6 ==> (#[trigger] s.stud_visible@[i])@.len() == 0,
    {
        let rounds = variant.rounds();
        let current_round = rounds[0];
        let mut stud_visible: Vec<Vec<Card>> = Vec::new();
        let mut i: usize = 0;
        while i < 6
            invariant
                i <= 6,
                stud_visible@.len() == i,
                forall|j: int| 0 <= j < i ==> (#[trigger] stud_visible@[j])@.len() == 0,
            decreases 6 - i,
        {
            stud_visible.push(Vec::new());
            i += 1;
        }
        GameState {
            variant,
            hole_cards: Vec::new(),
            community_cards: Vec::new(),
            opponent_count: 1,
            current_round,
            stud_visible,
        }
    }

    /// All cards that are definitively known (to remove from the deck before
    /// simulation): hole cards, then community cards, then each stud row.
    pub fn known_cards(&self) -> (r: Vec<Card>)
        ensures
            r@ == self.hole_cards@ + self.community_cards@ + flatten_cards(self.stud_visible@),
    {
        let mut known = self.hole_cards.clone();
        let mut k: usize = 0;
        while k < self.community_cards.len()
            invariant
                k <= self.community_cards.len(),
                known@ == self.hole_cards@ + self.community_cards@.take(k as int),
            decreases self.community_cards.len() - k,
        {
            known.push(self.community_cards[k]);
            assert(self.community_cards@.take(k + 1) =~= self.community_cards@.take(k as int).push(
                self.community_cards@[k as int],
            ));
            k += 1;
        }
        assert(self.community_cards@.take(k as int) =~= self.community_cards@);
        let ghost base = known@;
        let mut v: usize = 0;
        while v < self.stud_visible.len()
            invariant
                v <= self.stud_visible.len(),
                base == self.hole_cards@ + self.community_cards@,
                known@ == base + flatten_cards(self.stud_visible@.take(v as int)),
            decreases self.stud_visible.len() - v,
        {
            let row = &self.stud_visible[v];
            let ghost before = known@;
            let mut j: usize = 0;
            while j < row.len()
                invariant
                    j <= row.len(),
                    known@ == before + row@.take(j as int),
                decreases row.len() - j,
            {
                known.push(row[j]);
                assert(row@.take(j + 1) =~= row@.take(j as int).push(row@[j as int]));
                j += 1;
            }
            assert(row@.take(j as int) =~= row@);
            assert(self.stud_visible@.take(v + 1).drop_last() =~= self.stud_visible@.take(v as int));
            v += 1;
        }
        assert(self.stud_visible@.take(v as int) =~= self.stud_visible@);
        known
    }

    /// How many more community cards need to be revealed to reach showdown.
    pub fn community_cards_remaining(&self) -> (r: usize)
        ensures
            r as int == self.spec_community_remaining(),
    {
        self.variant.community_card_count().saturating_sub(self.community_cards.len())
    }

    /// How many hole cards per opponent are unknown (for simulation).
    pub fn unknown_hole_cards_per_opponent(&self) -> (r: usize)
        ensures
            r as int == unknown_per_opponent(self.variant),
    {
        match self.variant {
            GameVariant::TexasHoldem => 2,
            GameVariant::OmahaHoldem => 4,
            GameVariant::FiveCardDraw => 5,
            // Each opponent has 7 cards; stud's visible cards are handled separately.
            GameVariant::SevenCardStud => 7,
        }
    }

    /// Total cards still needed from the deck per simulation run.
    pub fn cards_to_simulate(&self) -> (r: usize)
        requires
            self.simulation_size_fits(),
        ensures
            r as int == self.spec_cards_to_simulate(),
    {
        let community_needed = self.community_cards_remaining();
        let per = self.unknown_hole_cards_per_opponent();
        proof {
            assert(self.opponent_count * per <= self.opponent_count * 7) by (nonlinear_arith)
                requires
                    per <= 7,
            ;
        }
        let opponent_needed = self.opponent_count * per;
        community_needed + opponent_needed
    }

    /// Advance to the next betting round. Returns false (and changes nothing)
    /// when the current round is the variant's last, or not one of its rounds.
    pub fn advance_round(&mut self) -> (advanced: bool)
        ensures
            ({
                let rs = variant_rounds(old(self).variant);
                let pos = rs.index_of_first(old(self).current_round);
                &&& advanced <==> (pos matches Some(p) && p + 1 < rs.len())
                &&& advanced ==> final(self).current_round == rs[pos->0 + 1]
                &&& !advanced ==> final(self).current_round == old(self).current_round
                &&& final(self).variant == old(self).variant
                &&& final(self).hole_cards == old(self).hole_cards
                &&& final(self).community_cards == old(self).community_cards
                &&& final(self).opponent_count == old(self).opponent_count
                &&& final(self).stud_visible == old(self).stud_visible
            }),
    {
        let rounds = self.variant.rounds();
        let ghost rs = rounds@;
        let mut i: usize = 0;
        while i < rounds.len()
            invariant
                rs == rounds@,
                rs == variant_rounds(self.variant),
                *self == *old(self),
                i <= rounds.len(),
                forall|j: int| 0 <= j < i ==> rs[j] != self.current_round,
            decreases rounds.len() - i,
        {
            if rounds[i] == self.current_round {
                proof {
                    rs.index_of_first_ensures(self.current_round);
                }
                if i + 1 < rounds.len() {
                    self.current_round = rounds[i + 1];
                    return true;
                }
                return false;
            }
            i += 1;
        }
        proof {
            rs.index_of_first_ensures(self.current_round);
        }
        false
    }

    /// Whether the hand has reached showdown (all cards revealed).
    pub open spec fn spec_is_complete(self) -> bool {
        match self.variant {
            GameVariant::TexasHoldem | GameVariant::OmahaHoldem => self.community_cards@.len() == 5,
            GameVariant::SevenCardStud => self.hole_cards@.len() == 7,
            GameVariant::FiveCardDraw => self.hole_cards@.len() == 5,
        }
    }

    /// Whether the hand has reached showdown (all cards revealed).
    pub fn is_complete(&self) -> (r: bool)
        ensures
            r == self.spec_is_complete(),
    {
        match self.variant {
            GameVariant::TexasHoldem | GameVariant::OmahaHoldem => self.community_cards.len() == 5,
            GameVariant::SevenCardStud => self.hole_cards.len() == 7,
            GameVariant::FiveCardDraw => self.hole_cards.len() == 5,
        }
    }

    /// Whether the player holds all the variant's hole cards.
    pub fn hole_cards_complete(&self) -> (r: bool)
        ensures
            r == (self.hole_cards@.len() == self.variant.spec_hole_card_count()),
    {
        self.hole_cards.len() == self.variant.hole_card_count()
    }
}

/// The rounds of a variant are all different: each is found at its own
/// position.
proof fn lemma_round_found(v: GameVariant, k: int)
    requires
        0 <= k < variant_rounds(v).len(),
    ensures
        variant_rounds(v).index_of_first(variant_rounds(v)[k]) == Some(k),
{
    let rs = variant_rounds(v);
    rs.index_of_first_ensures(rs[k]);
    assert(forall|i: int, j: int| 0 <= i < j < rs.len() ==> rs[i] != rs[j]);
}

/// Advancing a hand round by round walks its variant's rounds in order.
/// With `rounds[i]` the current round before the `i`-th call of
/// `advance_round` and `advanced[i]` what the call returned (each call as
/// its contract states), starting from the first round as a new hand does:
/// the first calls, one fewer than the variant has rounds, advance to the
/// next round each, and every later call is refused and stays on the last.
pub proof fn lemma_advance_walks_rounds(v: GameVariant, rounds: Seq<BettingRound>, advanced: Seq<bool>)
    requires
        rounds.len() == advanced.len() + 1,
        rounds[0] == variant_rounds(v)[0],
        forall|i: int|
            0 <= i < advanced.len() ==> ({
                let rs = variant_rounds(v);
                let pos = rs.index_of_first(#[trigger] rounds[i]);
                &&& advanced[i] <==> (pos matches Some(p) && p + 1 < rs.len())
                &&& advanced[i] ==> rounds[i + 1] == rs[pos->0 + 1]
                &&& !advanced[i] ==> rounds[i + 1] == rounds[i]
            }),
    ensures
        forall|i: int|
            0 <= i < advanced.len() ==> (#[trigger] advanced[i] <==> i + 1 < variant_rounds(v).len()),
        forall|i: int|
            0 <= i < rounds.len() ==> #[trigger] rounds[i] == variant_rounds(v)[if i
                < variant_rounds(v).len() {
                i
            } else {
                variant_rounds(v).len() - 1
            }],
    decreases advanced.len(),
{
    let rs = variant_rounds(v);
    let n = advanced.len() as int;
    if n > 0 {
        let rd = rounds.drop_last();
        let ad = advanced.drop_last();
        assert forall|i: int|
            0 <= i < ad.len() implies ({
                let pos = rs.index_of_first(#[trigger] rd[i]);
                &&& ad[i] <==> (pos matches Some(p) && p + 1 < rs.len())
                &&& ad[i] ==> rd[i + 1] == rs[pos->0 + 1]
                &&& !ad[i] ==> rd[i + 1] == rd[i]
            }) by {
            assert(rd[i] == rounds[i] && ad[i] == advanced[i] && rd[i + 1] == rounds[i + 1]);
        }
        lemma_advance_walks_rounds(v, rd, ad);
        let last = n - 1;
        assert(rounds[last] == rd[last]);
        let k = if last < rs.len() { last } else { rs.len() - 1 };
        lemma_round_found(v, k);
        assert forall|i: int| 0 <= i < advanced.len() implies (#[trigger] advanced[i] <==> i + 1
            < rs.len()) by {
            if i < last {
                assert(advanced[i] == ad[i]);
            }
        }
        assert forall|i: int| 0 <= i < rounds.len() implies #[trigger] rounds[i] == rs[if i
            < rs.len() {
            i
        } else {
            rs.len() - 1
        }] by {
            if i < n {
                assert(rounds[i] == rd[i]);
            }
        }
    }
}

} // verus!
