//! The simulation engine's logic: evaluating a hand of any variant, scoring
//! one dealt runout against the opponents, dealing a random runout, counting
//! the exact runouts and choosing between exact enumeration and Monte Carlo.
//!
//! The loops that watch a cancel flag, report progress and spread work over
//! threads stay with the caller; they call these functions.

use crate::cards::card::Card;
use crate::cards::deck::Deck;
use crate::eval::counting::{
    binom, lemma_binom_le_pow2, lemma_binom_step, lemma_binom_symmetric, lemma_binom_zero, pow2i,
};
use crate::eval::evaluator::{
    is_combo, is_combo5, lemma_distinct_fives_ok, position_combinations, positions,
};
use crate::game::state::flatten_cards;
use crate::sim::config::SimConfig;
use crate::sim::result::SimMethod;
use rand_xoshiro::Xoshiro256PlusPlus;
use crate::eval::evaluator::{
    best_value, combo5, fives_ok, lemma_best_over_unique, omaha_combo, HandEvaluator,
};
use crate::eval::rank::{category_of_value, HandValue};
use crate::game::state::{unknown_per_opponent, GameState};
use crate::game::variant::GameVariant;
use crate::sim::result::SimAccumulator;
use vstd::prelude::*;

verus! {

/// The seven cards of a Hold'em hand at showdown: two hole cards and five
/// board cards.
pub open spec fn holdem_seven(hole: Seq<Card>, community: Seq<Card>) -> Seq<Card> {
    hole.take(2) + community.take(5)
}

/// The nine cards an Omaha hand chooses from: four hole cards, then five
/// board cards.
pub open spec fn omaha_nine(hole: Seq<Card>, community: Seq<Card>) -> Seq<Card> {
    hole.take(4) + community.take(5)
}

/// The value of a hand of `variant` with these hole and community cards, or
/// 0 when there are too few cards to make five.
pub open spec fn hand_eval(variant: GameVariant, hole: Seq<Card>, community: Seq<Card>) -> int {
    match variant {
        GameVariant::TexasHoldem => if community.len() >= 5 && hole.len() >= 2 {
            best_value(holdem_seven(hole, community), combo5(7))
        } else if hole.len() + community.len() >= 5 {
            best_value(hole + community, combo5((hole.len() + community.len()) as int))
        } else {
            0
        },
        GameVariant::OmahaHoldem => if community.len() >= 5 && hole.len() >= 4 {
            best_value(omaha_nine(hole, community), omaha_combo())
        } else {
            0
        },
        _ => if hole.len() >= 5 {
            best_value(hole, combo5(hole.len() as int))
        } else {
            0
        },
    }
}

/// Whether every five-card combination that `hand_eval` looks at can be
/// evaluated.
pub open spec fn eval_ok(variant: GameVariant, hole: Seq<Card>, community: Seq<Card>) -> bool {
    match variant {
        GameVariant::TexasHoldem => if community.len() >= 5 && hole.len() >= 2 {
            fives_ok(holdem_seven(hole, community), combo5(7))
        } else {
            fives_ok(hole + community, combo5((hole.len() + community.len()) as int))
        },
        GameVariant::OmahaHoldem => community.len() >= 5 && hole.len() >= 4 ==> fives_ok(
            omaha_nine(hole, community),
            omaha_combo(),
        ),
        _ => fives_ok(hole, combo5(hole.len() as int)),
    }
}

/// The cards of `a` followed by those of `b`.
pub fn concat_cards(a: &[Card], b: &[Card]) -> (r: Vec<Card>)
    ensures
        r@ == a@ + b@,
{
    let mut all: Vec<Card> = Vec::new();
    let mut i: usize = 0;
    while i < a.len()
        invariant
            i <= a@.len(),
            all@ == a@.take(i as int),
        decreases a@.len() - i,
    {
        all.push(a[i]);
        assert(a@.take(i + 1) =~= a@.take(i as int).push(a@[i as int]));
        i += 1;
    }
    assert(a@.take(i as int) =~= a@);
    let mut j: usize = 0;
    while j < b.len()
        invariant
            j <= b@.len(),
            all@ == a@ + b@.take(j as int),
        decreases b@.len() - j,
    {
        all.push(b[j]);
        assert(b@.take(j + 1) =~= b@.take(j as int).push(b@[j as int]));
        j += 1;
    }
    assert(b@.take(j as int) =~= b@);
    all
}

/// Evaluate a hand for any game variant from its hole and community cards.
pub fn eval_hand(ev: &HandEvaluator, variant: GameVariant, hole: &[Card], community: &[Card]) -> (v:
    HandValue)
    requires
        eval_ok(variant, hole@, community@),
    ensures
        v.0 as int == hand_eval(variant, hole@, community@),
{
    match variant {
        GameVariant::TexasHoldem => {
            if community.len() >= 5 && hole.len() >= 2 {
                let cards = [
                    hole[0],
                    hole[1],
                    community[0],
                    community[1],
                    community[2],
                    community[3],
                    community[4],
                ];
                proof {
                    assert(cards@ =~= holdem_seven(hole@, community@));
                }
                let v = ev.best_five_of_seven(&cards);
                proof {
                    lemma_best_over_unique(cards@, combo5(7), v.0 as int);
                }
                v
            } else {
                let all = concat_cards(hole, community);
                if all.len() >= 5 {
                    let v = ev.best_five_of_n(all.as_slice());
                    proof {
                        lemma_best_over_unique(all@, combo5(all@.len() as int), v.0 as int);
                    }
                    v
                } else {
                    HandValue(0)
                }
            }
        },
        GameVariant::OmahaHoldem => {
            if community.len() >= 5 && hole.len() >= 4 {
                let hole_arr = [hole[0], hole[1], hole[2], hole[3]];
                let board_arr = [community[0], community[1], community[2], community[3], community[4]];
                proof {
                    assert(hole_arr@ + board_arr@ =~= omaha_nine(hole@, community@));
                }
                let v = ev.evaluate_omaha(&hole_arr, &board_arr);
                proof {
                    lemma_best_over_unique(hole_arr@ + board_arr@, omaha_combo(), v.0 as int);
                }
                v
            } else {
                HandValue(0)
            }
        },
        GameVariant::SevenCardStud | GameVariant::FiveCardDraw => {
            if hole.len() >= 5 {
                let v = ev.best_five_of_n(hole);
                proof {
                    lemma_best_over_unique(hole@, combo5(hole@.len() as int), v.0 as int);
                }
                v
            } else {
                HandValue(0)
            }
        },
    }
}

// ---------------------------------------------------------------------------
// Scoring one runout.

/// The board after a runout: the known community cards, then the first
/// cards of the runout.
pub open spec fn runout_board(state: GameState, combo: Seq<Card>) -> Seq<Card> {
    state.community_cards@ + combo.take(state.spec_community_remaining())
}

/// The hole cards of opponent `i` in a runout: the runout's cards after the
/// board, one block per opponent.
pub open spec fn opponent_hole(state: GameState, combo: Seq<Card>, i: int) -> Seq<Card> {
    let per = unknown_per_opponent(state.variant);
    let start = state.spec_community_remaining() + i * per;
    combo.subrange(start, start + per)
}

/// The best value among the first `n` opponents, or 0 when there are none.
pub open spec fn best_opponent(state: GameState, combo: Seq<Card>, n: int) -> int
    decreases n,
{
    if n <= 0 {
        0
    } else {
        let prev = best_opponent(state, combo, n - 1);
        let v = hand_eval(state.variant, opponent_hole(state, combo, n - 1), runout_board(state, combo));
        if v > prev {
            v
        } else {
            prev
        }
    }
}

/// Cards the runout needs: the rest of the board and every opponent's hole
/// cards.
pub open spec fn runout_len(state: GameState) -> int {
    state.spec_community_remaining() + state.opponent_count * unknown_per_opponent(state.variant)
}

/// A runout that can be scored: the board fits in five cards, the runout has
/// the cards it needs, and every hand in it can be evaluated.
pub open spec fn runout_ok(state: GameState, combo: Seq<Card>) -> bool {
    &&& state.community_cards@.len() <= 5
    &&& combo.len() >= runout_len(state)
    &&& eval_ok(state.variant, state.hole_cards@, runout_board(state, combo))
    &&& forall|i: int|
        0 <= i < state.opponent_count ==> eval_ok(
            state.variant,
            #[trigger] opponent_hole(state, combo, i),
            runout_board(state, combo),
        )
}

/// `after` is `before` with the showdown of the runout recorded: a win when
/// the player's hand beats every opponent's, a tie when the best opponent
/// equals it, a loss otherwise, in the category of the player's hand.
pub open spec fn showdown_recorded(
    before: SimAccumulator,
    after: SimAccumulator,
    state: GameState,
    combo: Seq<Card>,
) -> bool {
    let p = hand_eval(state.variant, state.hole_cards@, runout_board(state, combo));
    let o = best_opponent(state, combo, state.opponent_count as int);
    &&& after.wins == before.wins + if p > o {
        1int
    } else {
        0int
    }
    &&& after.ties == before.ties + if p == o {
        1int
    } else {
        0int
    }
    &&& after.losses == before.losses + if p < o {
        1int
    } else {
        0int
    }
    &&& before.counts_after(after, category_of_value(p))
}

/// The cards of `a` at positions `start..end`.
pub fn slice_cards(a: &[Card], start: usize, end: usize) -> (r: Vec<Card>)
    requires
        start <= end <= a@.len(),
    ensures
        r@ == a@.subrange(start as int, end as int),
{
    let mut out: Vec<Card> = Vec::new();
    let mut i: usize = start;
    while i < end
        invariant
            start <= i <= end,
            end <= a@.len(),
            out@ == a@.subrange(start as int, i as int),
        decreases end - i,
    {
        out.push(a[i]);
        assert(a@.subrange(start as int, i + 1) =~= a@.subrange(start as int, i as int).push(
            a@[i as int],
        ));
        i += 1;
    }
    out
}

/// Score one runout whose cards are already dealt: `combo` holds the rest of
/// the board, then each opponent's hole cards.
pub fn evaluate_exact_combo(
    ev: &HandEvaluator,
    state: &GameState,
    combo: &[Card],
    acc: &mut SimAccumulator,
)
    requires
        runout_ok(*state, combo@),
        old(acc).has_room(),
    ensures
        showdown_recorded(*old(acc), *final(acc), *state, combo@),
{
    let community_needed = state.community_cards_remaining();
    let ghost board = runout_board(*state, combo@);
    let ghost count = state.opponent_count as int;
    let drawn = slice_cards(combo, 0, community_needed);
    assert(drawn@ =~= combo@.take(community_needed as int));
    let community = concat_cards(state.community_cards.as_slice(), drawn.as_slice());
    let player_value = eval_hand(ev, state.variant, state.hole_cards.as_slice(), community.as_slice());
    let player_cat = player_value.category();
    let hole_per_opp = state.unknown_hole_cards_per_opponent();
    let mut offset = community_needed;
    let mut best_opp: u16 = 0;
    let combo_len = combo.len();
    let mut i: usize = 0;
    while i < state.opponent_count
        invariant
            runout_ok(*state, combo@),
            community@ == board,
            board == runout_board(*state, combo@),
            count == state.opponent_count,
            hole_per_opp as int == unknown_per_opponent(state.variant),
            community_needed as int == state.spec_community_remaining(),
            i <= count,
            offset as int == community_needed + i * hole_per_opp,
            best_opp as int == best_opponent(*state, combo@, i as int),
            combo_len == combo@.len(),
        decreases count - i,
    {
        proof {
            assert((i + 1) * hole_per_opp <= count * hole_per_opp) by (nonlinear_arith)
                requires
                    i + 1 <= count,
                    hole_per_opp >= 0,
            ;
            assert((i + 1) * hole_per_opp == i * hole_per_opp + hole_per_opp) by (nonlinear_arith);
            assert(combo@.len() >= community_needed + count * hole_per_opp);
            assert(offset + hole_per_opp <= combo@.len());
        }
        let opp_hand = slice_cards(combo, offset, offset + hole_per_opp);
        proof {
            assert(opp_hand@ == opponent_hole(*state, combo@, i as int));
        }
        let opp_val = eval_hand(ev, state.variant, opp_hand.as_slice(), community.as_slice());
        if opp_val.0 > best_opp {
            best_opp = opp_val.0;
        }
        offset = offset + hole_per_opp;
        i = i + 1;
    }
    if player_value.0 > best_opp {
        acc.record_win(player_cat);
    } else if player_value.0 == best_opp {
        acc.record_tie(player_cat);
    } else {
        acc.record_loss(player_cat);
    }
}

// ---------------------------------------------------------------------------
// Dealing a random runout.

/// The cards of `s` are pairwise different.
pub open spec fn distinct_cards(s: Seq<Card>) -> bool {
    forall|i: int, j: int| 0 <= i < j < s.len() ==> s[i].idx() != s[j].idx()
}

/// No card of `a` is a card of `b`.
pub open spec fn disjoint_cards(a: Seq<Card>, b: Seq<Card>) -> bool {
    forall|i: int, j: int| 0 <= i < a.len() && 0 <= j < b.len() ==> a[i].idx() != b[j].idx()
}

/// `d` holds pairwise different cards, all of them from the deck `deck`.
pub open spec fn dealt_from(deck: Set<int>, d: Seq<Card>) -> bool {
    &&& distinct_cards(d)
    &&& forall|i: int| 0 <= i < d.len() ==> deck.contains(#[trigger] d[i].idx())
}

/// Two lists of different cards with no card in common make one list of
/// different cards, and the converse.
pub proof fn lemma_distinct_concat(a: Seq<Card>, b: Seq<Card>)
    ensures
        distinct_cards(a + b) <==> (distinct_cards(a) && distinct_cards(b) && disjoint_cards(a, b)),
{
    let s = a + b;
    if distinct_cards(s) {
        assert forall|i: int, j: int| 0 <= i < j < b.len() implies b[i].idx() != b[j].idx() by {
            assert(s[a.len() + i] == b[i] && s[a.len() + j] == b[j]);
        }
        assert forall|i: int, j: int| 0 <= i < a.len() && 0 <= j < b.len() implies a[i].idx()
            != b[j].idx() by {
            assert(s[i] == a[i] && s[a.len() + j] == b[j]);
        }
        assert forall|i: int, j: int| 0 <= i < j < a.len() implies a[i].idx() != a[j].idx() by {
            assert(s[i] == a[i] && s[j] == a[j]);
        }
    }
    if distinct_cards(a) && distinct_cards(b) && disjoint_cards(a, b) {
        assert forall|i: int, j: int| 0 <= i < j < s.len() implies s[i].idx() != s[j].idx() by {
            if j < a.len() {
            } else if i < a.len() {
                assert(s[j] == b[j - a.len()]);
            } else {
                assert(s[i] == b[i - a.len()] && s[j] == b[j - a.len()]);
            }
        }
    }
}

/// Part of a list of different cards holds different cards, none of them in
/// another part.
pub proof fn lemma_distinct_parts(s: Seq<Card>, lo1: int, hi1: int, lo2: int, hi2: int)
    requires
        distinct_cards(s),
        0 <= lo1 <= hi1 <= s.len(),
        0 <= lo2 <= hi2 <= s.len(),
    ensures
        distinct_cards(s.subrange(lo1, hi1)),
        (hi1 <= lo2 || hi2 <= lo1) ==> disjoint_cards(s.subrange(lo1, hi1), s.subrange(lo2, hi2)),
{
    let a = s.subrange(lo1, hi1);
    let b = s.subrange(lo2, hi2);
    assert forall|i: int, j: int| 0 <= i < j < a.len() implies a[i].idx() != a[j].idx() by {
        assert(a[i] == s[lo1 + i] && a[j] == s[lo1 + j]);
    }
    if hi1 <= lo2 || hi2 <= lo1 {
        assert forall|i: int, j: int| 0 <= i < a.len() && 0 <= j < b.len() implies a[i].idx()
            != b[j].idx() by {
            assert(a[i] == s[lo1 + i] && b[j] == s[lo2 + j]);
        }
    }
}

/// Different cards can be evaluated in any variant.
pub proof fn lemma_eval_ok_distinct(variant: GameVariant, hole: Seq<Card>, board: Seq<Card>)
    requires
        distinct_cards(hole + board),
    ensures
        eval_ok(variant, hole, board),
{
    lemma_distinct_concat(hole, board);
    let all = hole + board;
    assert(hole == all.subrange(0, hole.len() as int));
    assert(board == all.subrange(hole.len() as int, all.len() as int));
    assert forall|i: int, j: int| 0 <= i < j < all.len() implies all[i] != all[j] by {
        assert(all[i].idx() != all[j].idx());
    }
    lemma_distinct_fives_ok(all, combo5(all.len() as int));
    assert forall|i: int, j: int| 0 <= i < j < hole.len() implies hole[i] != hole[j] by {
        assert(hole[i].idx() != hole[j].idx());
    }
    lemma_distinct_fives_ok(hole, combo5(hole.len() as int));
    if board.len() >= 5 && hole.len() >= 2 {
        let h2 = hole.take(2);
        let b5 = board.take(5);
        lemma_distinct_parts(hole, 0, 2, 0, 0);
        lemma_distinct_parts(board, 0, 5, 0, 0);
        assert(disjoint_cards(h2, b5));
        lemma_distinct_concat(h2, b5);
        let seven = holdem_seven(hole, board);
        assert forall|i: int, j: int| 0 <= i < j < seven.len() implies seven[i] != seven[j] by {
            assert(seven[i].idx() != seven[j].idx());
        }
        lemma_distinct_fives_ok(seven, combo5(7));
    }
    if board.len() >= 5 && hole.len() >= 4 {
        let h4 = hole.take(4);
        let b5 = board.take(5);
        lemma_distinct_parts(hole, 0, 4, 0, 0);
        lemma_distinct_parts(board, 0, 5, 0, 0);
        assert(disjoint_cards(h4, b5));
        lemma_distinct_concat(h4, b5);
        let nine = omaha_nine(hole, board);
        assert forall|i: int, j: int| 0 <= i < j < nine.len() implies nine[i] != nine[j] by {
            assert(nine[i].idx() != nine[j].idx());
        }
        assert forall|c: Seq<int>| #[trigger] omaha_combo()(c) implies is_combo5(9, c) by {}
        lemma_distinct_fives_ok(nine, omaha_combo());
    }
}

/// A runout of different cards, none of them known, can be scored.
pub proof fn lemma_runout_ok(state: GameState, d: Seq<Card>)
    requires
        state.community_cards@.len() <= 5,
        d.len() >= runout_len(state),
        distinct_cards(state.hole_cards@ + state.community_cards@),
        distinct_cards(d),
        disjoint_cards(state.hole_cards@ + state.community_cards@, d),
    ensures
        runout_ok(state, d),
{
    let hole = state.hole_cards@;
    let comm = state.community_cards@;
    let needed = state.spec_community_remaining();
    let per = unknown_per_opponent(state.variant);
    let board = runout_board(state, d);
    lemma_distinct_concat(hole, comm);
    lemma_distinct_parts(d, 0, needed, 0, 0);
    let drawn = d.take(needed);
    assert(drawn == d.subrange(0, needed));
    assert(disjoint_cards(comm, drawn)) by {
        assert forall|i: int, j: int| 0 <= i < comm.len() && 0 <= j < drawn.len() implies comm[i].idx()
            != drawn[j].idx() by {
            assert((hole + comm)[hole.len() + i] == comm[i]);
        }
    }
    lemma_distinct_concat(comm, drawn);
    assert(disjoint_cards(hole, board)) by {
        assert forall|i: int, j: int| 0 <= i < hole.len() && 0 <= j < board.len() implies hole[i].idx()
            != board[j].idx() by {
            assert((hole + comm)[i] == hole[i]);
            if j < comm.len() {
                assert(board[j] == comm[j]);
            } else {
                assert(board[j] == drawn[j - comm.len()]);
            }
        }
    }
    lemma_distinct_concat(hole, board);
    lemma_eval_ok_distinct(state.variant, hole, board);
    assert forall|i: int| 0 <= i < state.opponent_count implies eval_ok(
        state.variant,
        #[trigger] opponent_hole(state, d, i),
        board,
    ) by {
        let start = needed + i * per;
        assert(0 <= i * per) by (nonlinear_arith)
            requires
                0 <= i,
                0 <= per,
        ;
        assert((i + 1) * per <= state.opponent_count * per) by (nonlinear_arith)
            requires
                i + 1 <= state.opponent_count,
                0 <= per,
        ;
        assert((i + 1) * per == i * per + per) by (nonlinear_arith);
        let opp = opponent_hole(state, d, i);
        lemma_distinct_parts(d, start, start + per, 0, needed);
        assert(disjoint_cards(opp, board)) by {
            assert forall|a: int, b: int| 0 <= a < opp.len() && 0 <= b < board.len() implies opp[a].idx()
                != board[b].idx() by {
                assert(opp[a] == d[start + a]);
                if b < comm.len() {
                    assert(board[b] == comm[b]);
                    assert((hole + comm)[hole.len() + b] == comm[b]);
                } else {
                    assert(board[b] == drawn[b - comm.len()]);
                    assert(drawn[b - comm.len()] == d.subrange(0, needed)[b - comm.len()]);
                }
            }
        }
        lemma_distinct_concat(opp, board);
        lemma_eval_ok_distinct(state.variant, opp, board);
    }
}

/// Deal `k` cards at random from the deck, in order: `None` when the deck
/// runs out first.
pub fn deal_runout(deck: &mut Deck, rng: &mut Xoshiro256PlusPlus, k: usize) -> (r: Option<Vec<Card>>)
    ensures
        r is None <==> old(deck)@.len() < k,
        r matches Some(d) ==> {
            &&& d@.len() == k
            &&& dealt_from(old(deck)@, d@)
            &&& forall|i: int|
                #[trigger] final(deck)@.contains(i) <==> old(deck)@.contains(i) && forall|j: int|
                    0 <= j < d@.len() ==> d@[j].idx() != i
        },
{
    proof {
        old(deck).lemma_view_bounds();
    }
    let mut dealt: Vec<Card> = Vec::new();
    let mut i: usize = 0;
    while i < k
        invariant
            i <= k,
            dealt@.len() == i,
            dealt_from(old(deck)@, dealt@),
            deck@.finite(),
            deck@.len() + i == old(deck)@.len(),
            forall|x: int|
                #[trigger] deck@.contains(x) <==> old(deck)@.contains(x) && forall|j: int|
                    0 <= j < dealt@.len() ==> dealt@[j].idx() != x,
        decreases k - i,
    {
        let ghost before = deck@;
        let ghost old_dealt = dealt@;
        match deck.deal_random(rng) {
            Some(c) => {
                proof {
                    assert(before.contains(c.idx()));
                    assert forall|j: int| 0 <= j < dealt@.len() implies dealt@[j].idx() != c.idx() by {}
                }
                dealt.push(c);
                proof {
                    assert(dealt@ == old_dealt.push(c));
                    assert forall|x: int|
                        #[trigger] deck@.contains(x) <==> old(deck)@.contains(x) && forall|j: int|
                            0 <= j < dealt@.len() ==> dealt@[j].idx() != x by {
                        assert(deck@.contains(x) == (before.contains(x) && x != c.idx()));
                        assert(before.contains(x) == (old(deck)@.contains(x) && forall|j: int|
                            0 <= j < old_dealt.len() ==> old_dealt[j].idx() != x));
                        if deck@.contains(x) {
                            assert forall|j: int| 0 <= j < dealt@.len() implies dealt@[j].idx() != x by {
                                if j < old_dealt.len() {
                                    assert(dealt@[j] == old_dealt[j]);
                                }
                            }
                        }
                        if old(deck)@.contains(x) && forall|j: int|
                            0 <= j < dealt@.len() ==> dealt@[j].idx() != x {
                            assert(dealt@[old_dealt.len() as int] == c);
                            assert forall|j: int| 0 <= j < old_dealt.len() implies old_dealt[j].idx() != x by {
                                assert(dealt@[j] == old_dealt[j]);
                            }
                        }
                    }
                }
            },
            None => {
                return None;
            },
        }
        i += 1;
    }
    Some(dealt)
}

/// Deal one random runout from the deck and score it: nothing is recorded
/// when the deck runs out first.
pub fn simulate_one(
    ev: &HandEvaluator,
    state: &GameState,
    deck: &mut Deck,
    rng: &mut Xoshiro256PlusPlus,
    acc: &mut SimAccumulator,
)
    requires
        old(acc).has_room(),
        state.community_cards@.len() <= 5,
        state.simulation_size_fits(),
        distinct_cards(state.hole_cards@ + state.community_cards@),
        forall|i: int|
            0 <= i < (state.hole_cards@ + state.community_cards@).len() ==> !old(deck)@.contains(
                #[trigger] (state.hole_cards@ + state.community_cards@)[i].idx(),
            ),
    ensures
        old(deck)@.len() < runout_len(*state) ==> *final(acc) == *old(acc),
        old(deck)@.len() >= runout_len(*state) ==> exists|d: Seq<Card>|
            #![trigger dealt_from(old(deck)@, d)]
            d.len() == runout_len(*state) && dealt_from(old(deck)@, d) && showdown_recorded(
                *old(acc),
                *final(acc),
                *state,
                d,
            ),
{
    let k = state.cards_to_simulate();
    let ghost start_deck = deck@;
    match deal_runout(deck, rng, k) {
        Some(d) => {
            proof {
                let known = state.hole_cards@ + state.community_cards@;
                assert(disjoint_cards(known, d@)) by {
                    assert forall|i: int, j: int| 0 <= i < known.len() && 0 <= j < d@.len() implies known[i].idx()
                        != d@[j].idx() by {
                        assert(start_deck.contains(d@[j].idx()));
                        assert(!start_deck.contains(known[i].idx()));
                    }
                }
                lemma_runout_ok(*state, d@);
            }
            evaluate_exact_combo(ev, state, d.as_slice(), acc);
            assert(dealt_from(start_deck, d@));
        },
        None => {},
    }
}

// ---------------------------------------------------------------------------
// Counting exact runouts.

/// The multiplicative formula for `C(n, k)`, run over its first `m` steps,
/// never exceeds `u64::MAX` before dividing.
pub open spec fn count_fits(n: nat, m: nat) -> bool {
    forall|i: nat| i < m ==> #[trigger] binom(n, i) * (n - i) <= u64::MAX
}

/// The smaller of `k` and `n - k`.
pub open spec fn smaller_side(n: nat, k: nat) -> nat {
    if k < n - k {
        k
    } else {
        (n - k) as nat
    }
}

/// `2^n` grows with `n`.
proof fn lemma_pow2_mono(a: nat, b: nat)
    requires
        a <= b,
    ensures
        1 <= pow2i(a) <= pow2i(b),
    decreases b,
{
    if b > a {
        lemma_pow2_mono(a, (b - 1) as nat);
    } else if a > 0 {
        lemma_pow2_mono(0, (a - 1) as nat);
    }
}

/// For at most 58 cards the formula always fits in `u64`.
pub proof fn lemma_count_fits_small(n: nat, m: nat)
    requires
        n <= 58,
    ensures
        count_fits(n, m),
{
    assert(pow2i(58) == 288230376151711744) by {
        reveal_with_fuel(pow2i, 59);
    }
    assert forall|i: nat| i < m implies #[trigger] binom(n, i) * (n - i) <= u64::MAX by {
        lemma_binom_le_pow2(n, i);
        lemma_pow2_mono(n, 58);
        if i <= n {
            assert(binom(n, i) * (n - i) <= 288230376151711744 * 58) by (nonlinear_arith)
                requires
                    binom(n, i) <= 288230376151711744,
                    0 <= n - i <= 58,
            ;
        } else {
            lemma_binom_zero(n, i);
        }
    }
}

/// `(c * d) / d == c`.
proof fn lemma_div_exact(c: int, d: int)
    by (nonlinear_arith)
    requires
        d > 0,
    ensures
        (c * d) / d == c,
{
}

/// The multiplicative formula for `C(n, k)` over its first `i` steps, each
/// product capped at `u64::MAX` before the division.
pub open spec fn capped_product(n: nat, i: nat) -> int
    decreases i,
{
    if i == 0 {
        1
    } else {
        let p = capped_product(n, (i - 1) as nat) * (n - (i - 1));
        (if p > u64::MAX {
            u64::MAX as int
        } else {
            p
        }) / (i as int)
    }
}

/// Number of ways to choose `k` of `n` cards, by the multiplicative formula
/// over the smaller of `k` and `n - k`, saturating at `u64::MAX` on overflow.
pub fn combinations_count(n: usize, k: usize) -> (r: u64)
    ensures
        k > n ==> r == 0,
        k <= n ==> r == capped_product(n as nat, smaller_side(n as nat, k as nat)),
        k <= n && count_fits(n as nat, smaller_side(n as nat, k as nat)) ==> r == binom(
            n as nat,
            k as nat,
        ),
{
    if k > n {
        return 0;
    }
    if k == 0 {
        return 1;
    }
    let k2: usize = if k < n - k {
        k
    } else {
        n - k
    };
    let ghost fits = count_fits(n as nat, k2 as nat);
    let mut result: u64 = 1;
    let mut i: usize = 0;
    while i < k2
        invariant
            i <= k2 <= n,
            fits == count_fits(n as nat, k2 as nat),
            fits ==> result == binom(n as nat, i as nat),
            result == capped_product(n as nat, i as nat),
        decreases k2 - i,
    {
        let factor = (n - i) as u64;
        result = match result.checked_mul(factor) {
            Some(p) => p,
            None => u64::MAX,
        };
        proof {
            if fits {
                assert(binom(n as nat, i as nat) * (n - i) <= u64::MAX);
                lemma_binom_step(n as nat, i as nat);
                lemma_div_exact(binom(n as nat, (i + 1) as nat) as int, (i + 1) as int);
            }
        }
        result = result / ((i + 1) as u64);
        i += 1;
    }
    proof {
        if k2 != k {
            lemma_binom_symmetric(n as nat, k as nat);
        }
    }
    result
}

// ---------------------------------------------------------------------------
// Choosing the method, and Monte Carlo in chunks.

/// The indices of the known cards: hole, community and visible stud cards.
pub open spec fn known_indices(state: GameState) -> Set<int> {
    (state.hole_cards@ + state.community_cards@ + flatten_cards(state.stud_visible@)).map_values(
        |c: Card| c.idx(),
    ).to_set()
}

/// The deck a simulation draws from: every card that is not known.
pub fn simulation_deck(state: &GameState) -> (d: Deck)
    ensures
        d@ == vstd::set_lib::set_int_range(0, 52).difference(known_indices(*state)),
{
    let mut deck = Deck::new();
    let known = state.known_cards();
    deck.remove_many(known.as_slice());
    deck
}

/// The number of exact runouts the decision compares with the threshold:
/// `C(remaining, needed)`, or `u64::MAX` when too few cards remain.
pub open spec fn exact_runout_count(remaining: int, needed: int) -> int {
    if needed <= remaining {
        binom(remaining as nat, needed as nat) as int
    } else {
        u64::MAX as int
    }
}

/// How to compute the odds of a hand: not at all until the player's hole
/// cards are complete, by exact enumeration when the runouts are at most
/// the configured threshold, else by Monte Carlo.
pub fn choose_method(state: &GameState, config: &SimConfig) -> (m: SimMethod)
    requires
        state.simulation_size_fits(),
    ensures
        m == if state.hole_cards@.len() != state.variant.spec_hole_card_count() {
            SimMethod::NotStarted
        } else if exact_runout_count(
            vstd::set_lib::set_int_range(0, 52).difference(known_indices(*state)).len() as int,
            (runout_len(*state) as u32) as int,
        ) <= config.exact_threshold {
            SimMethod::Exact
        } else {
            SimMethod::MonteCarlo
        },
{
    if !state.hole_cards_complete() {
        return SimMethod::NotStarted;
    }
    let deck = simulation_deck(state);
    let remaining = deck.remaining_count() as u64;
    let cards_needed = state.cards_to_simulate() as u32;
    let exact_combos = if cards_needed <= remaining as u32 {
        proof {
            lemma_count_fits_small(remaining as nat, smaller_side(remaining as nat, cards_needed as nat));
        }
        combinations_count(remaining as usize, cards_needed as usize)
    } else {
        u64::MAX
    };
    if exact_combos <= config.exact_threshold {
        SimMethod::Exact
    } else {
        SimMethod::MonteCarlo
    }
}

/// A consistent accumulator below the count limit has room for one more
/// runout.
proof fn lemma_room(acc: SimAccumulator)
    requires
        acc.consistent(),
        acc.total < u64::MAX,
    ensures
        acc.has_room(),
{
}

/// Recording a showdown keeps the counters consistent and adds one runout.
proof fn lemma_recorded_consistent(
    before: SimAccumulator,
    after: SimAccumulator,
    state: GameState,
    d: Seq<Card>,
)
    requires
        before.consistent(),
        showdown_recorded(before, after, state, d),
    ensures
        after.consistent(),
        after.total == before.total + 1,
{
    let p = hand_eval(state.variant, state.hole_cards@, runout_board(state, d));
    let c = category_of_value(p).idx();
    assert(0 <= c < 10);
    assert(after.hand_counts@[0] == before.hand_counts@[0] + if c == 0 { 1int } else { 0int });
    assert(after.hand_counts@[1] == before.hand_counts@[1] + if c == 1 { 1int } else { 0int });
    assert(after.hand_counts@[2] == before.hand_counts@[2] + if c == 2 { 1int } else { 0int });
    assert(after.hand_counts@[3] == before.hand_counts@[3] + if c == 3 { 1int } else { 0int });
    assert(after.hand_counts@[4] == before.hand_counts@[4] + if c == 4 { 1int } else { 0int });
    assert(after.hand_counts@[5] == before.hand_counts@[5] + if c == 5 { 1int } else { 0int });
    assert(after.hand_counts@[6] == before.hand_counts@[6] + if c == 6 { 1int } else { 0int });
    assert(after.hand_counts@[7] == before.hand_counts@[7] + if c == 7 { 1int } else { 0int });
    assert(after.hand_counts@[8] == before.hand_counts@[8] + if c == 8 { 1int } else { 0int });
    assert(after.hand_counts@[9] == before.hand_counts@[9] + if c == 9 { 1int } else { 0int });
}

/// How many of the runouts `rs` end in a showdown whose player value and
/// best opponent value satisfy `f`.
pub open spec fn runs_tally(state: GameState, rs: Seq<Seq<Card>>, f: spec_fn(int, int) -> bool) -> int
    decreases rs.len(),
{
    if rs.len() == 0 {
        0
    } else {
        let d = rs.last();
        let p = hand_eval(state.variant, state.hole_cards@, runout_board(state, d));
        let o = best_opponent(state, d, state.opponent_count as int);
        runs_tally(state, rs.drop_last(), f) + if f(p, o) {
            1int
        } else {
            0int
        }
    }
}

/// The runouts of `rs` the player wins.
pub open spec fn runs_won(state: GameState, rs: Seq<Seq<Card>>) -> int {
    runs_tally(state, rs, |p: int, o: int| p > o)
}

/// The runouts of `rs` the player ties.
pub open spec fn runs_tied(state: GameState, rs: Seq<Seq<Card>>) -> int {
    runs_tally(state, rs, |p: int, o: int| p == o)
}

/// The runouts of `rs` the player loses.
pub open spec fn runs_lost(state: GameState, rs: Seq<Seq<Card>>) -> int {
    runs_tally(state, rs, |p: int, o: int| p < o)
}

/// The runouts of `rs` in which the player's hand falls in the category
/// with position `c`.
pub open spec fn runs_in_category(state: GameState, rs: Seq<Seq<Card>>, c: int) -> int {
    runs_tally(state, rs, |p: int, o: int| category_of_value(p).idx() == c)
}

/// `after` holds the counts of `before` plus the showdowns of the runouts
/// `rs`.
pub open spec fn runs_recorded(
    before: SimAccumulator,
    after: SimAccumulator,
    state: GameState,
    rs: Seq<Seq<Card>>,
) -> bool {
    &&& after.total == before.total + rs.len()
    &&& after.wins == before.wins + runs_won(state, rs)
    &&& after.ties == before.ties + runs_tied(state, rs)
    &&& after.losses == before.losses + runs_lost(state, rs)
    &&& forall|c: int|
        0 <= c < 10 ==> #[trigger] after.hand_counts@[c] == before.hand_counts@[c]
            + runs_in_category(state, rs, c)
}

/// Recording one more runout extends the recorded runouts by it.
proof fn lemma_runs_recorded_push(
    start: SimAccumulator,
    before: SimAccumulator,
    after: SimAccumulator,
    state: GameState,
    rs: Seq<Seq<Card>>,
    d: Seq<Card>,
)
    requires
        runs_recorded(start, before, state, rs),
        showdown_recorded(before, after, state, d),
    ensures
        runs_recorded(start, after, state, rs.push(d)),
{
    let rs2 = rs.push(d);
    assert(rs2.drop_last() =~= rs);
    assert(rs2.last() == d);
    let p = hand_eval(state.variant, state.hole_cards@, runout_board(state, d));
    assert forall|c: int| 0 <= c < 10 implies #[trigger] after.hand_counts@[c] == start.hand_counts@[c]
        + runs_in_category(state, rs2, c) by {
        assert(after.hand_counts@[c] == before.hand_counts@[c] + if c == category_of_value(p).idx() {
            1int
        } else {
            0int
        });
        assert(before.hand_counts@[c] == start.hand_counts@[c] + runs_in_category(state, rs, c));
    }
}

/// Run `iterations` Monte Carlo runouts, each from a fresh copy of `deck`,
/// recording every showdown: when the deck holds enough cards, the counts
/// grow by the showdowns of `iterations` runouts dealt from it (which ones
/// is left to the generator); when it does not, nothing is recorded.
pub fn run_monte_carlo_chunk(
    ev: &HandEvaluator,
    state: &GameState,
    deck: &Deck,
    rng: &mut Xoshiro256PlusPlus,
    iterations: u64,
    acc: &mut SimAccumulator,
)
    requires
        old(acc).consistent(),
        old(acc).total + iterations <= u64::MAX,
        state.community_cards@.len() <= 5,
        state.simulation_size_fits(),
        distinct_cards(state.hole_cards@ + state.community_cards@),
        forall|i: int|
            0 <= i < (state.hole_cards@ + state.community_cards@).len() ==> !deck@.contains(
                #[trigger] (state.hole_cards@ + state.community_cards@)[i].idx(),
            ),
    ensures
        final(acc).consistent(),
        deck@.len() >= runout_len(*state) ==> exists|rs: Seq<Seq<Card>>|
            #![trigger runs_recorded(*old(acc), *final(acc), *state, rs)]
            rs.len() == iterations && (forall|j: int|
                0 <= j < rs.len() ==> (#[trigger] rs[j]).len() == runout_len(*state) && dealt_from(
                    deck@,
                    rs[j],
                )) && runs_recorded(*old(acc), *final(acc), *state, rs),
        deck@.len() < runout_len(*state) ==> *final(acc) == *old(acc),
{
    let mut i: u64 = 0;
    let ghost mut rs: Seq<Seq<Card>> = Seq::empty();
    proof {
        assert(runs_recorded(*acc, *acc, *state, rs));
    }
    while i < iterations
        invariant
            i <= iterations,
            acc.consistent(),
            old(acc).total + iterations <= u64::MAX,
            deck@.len() >= runout_len(*state) ==> {
                &&& acc.total == old(acc).total + i
                &&& rs.len() == i
                &&& forall|j: int|
                    0 <= j < rs.len() ==> (#[trigger] rs[j]).len() == runout_len(*state) && dealt_from(
                        deck@,
                        rs[j],
                    )
                &&& runs_recorded(*old(acc), *acc, *state, rs)
            },
            deck@.len() < runout_len(*state) ==> *acc == *old(acc),
            state.community_cards@.len() <= 5,
            state.simulation_size_fits(),
            distinct_cards(state.hole_cards@ + state.community_cards@),
            forall|i: int|
                0 <= i < (state.hole_cards@ + state.community_cards@).len() ==> !deck@.contains(
                    #[trigger] (state.hole_cards@ + state.community_cards@)[i].idx(),
                ),
        decreases iterations - i,
    {
        let mut sim_deck = deck.snapshot();
        let ghost before = *acc;
        proof {
            lemma_room(*acc);
        }
        simulate_one(ev, state, &mut sim_deck, rng, acc);
        proof {
            if deck@.len() >= runout_len(*state) {
                let d = choose|d: Seq<Card>|
                    #![trigger dealt_from(deck@, d)]
                    d.len() == runout_len(*state) && dealt_from(deck@, d) && showdown_recorded(
                        before,
                        *acc,
                        *state,
                        d,
                    );
                lemma_recorded_consistent(before, *acc, *state, d);
                lemma_runs_recorded_push(*old(acc), before, *acc, *state, rs, d);
                rs = rs.push(d);
            }
        }
        i += 1;
    }
}

/// Rounding `raw` up to a multiple of `m`: `q` multiples of `m`.
proof fn lemma_round_up(raw: int, m: int, q: int)
    by (nonlinear_arith)
    requires
        m >= 1,
        raw >= 0,
        raw % m == 0 ==> q == raw / m,
        raw % m != 0 ==> q == raw / m + 1,
    ensures
        raw <= q * m <= raw + m - 1,
        (q * m) % m == 0,
{
}

/// A hundred per thread is already a multiple of the thread count.
proof fn lemma_round_up_exact(m: int, q: int)
    requires
        m >= 1,
        (m * 100) % m == 0 ==> q == (m * 100) / m,
        (m * 100) % m != 0 ==> q == (m * 100) / m + 1,
    ensures
        q * m == m * 100,
{
    assert((m * 100) % m == 0 && (m * 100) / m == 100) by (nonlinear_arith)
        requires
            m >= 1,
    ;
    assert(q * m == m * 100) by (nonlinear_arith)
        requires
            q == 100,
    ;
}

/// Iterations per parallel chunk: a twentieth of the run, at least 100 per
/// thread, rounded up to a multiple of the thread count so every thread gets
/// a fair share.
pub fn parallel_chunk_size(iterations: u64, n_threads: usize) -> (c: u64)
    requires
        n_threads >= 1,
        n_threads * 100 <= u64::MAX,
    ensures
        ({
            let raw: int = if iterations / 20 >= n_threads * 100 {
                (iterations / 20) as int
            } else {
                n_threads * 100
            };
            &&& (c as int) % (n_threads as int) == 0
            &&& raw <= c < raw + n_threads
        }),
{
    let m = n_threads as u64;
    let a = iterations / 20;
    let b = m * 100;
    let raw = if a >= b {
        a
    } else {
        b
    };
    let q = if raw % m == 0 {
        raw / m
    } else {
        raw / m + 1
    };
    proof {
        lemma_round_up(raw as int, m as int, q as int);
        if raw == b {
            lemma_round_up_exact(m as int, q as int);
        } else {
            assert(raw + m - 1 <= u64::MAX);
        }
        assert(q * m <= u64::MAX);
    }
    q * m
}

/// Iterations for thread `t` of `n_threads` in a chunk: an equal share,
/// and one more for each of the first `chunk % n_threads` threads.
pub fn thread_iterations(chunk: u64, n_threads: usize, t: u64) -> (r: u64)
    requires
        n_threads >= 1,
    ensures
        r == chunk / (n_threads as u64) + if t < chunk % (n_threads as u64) {
            1int
        } else {
            0int
        },
{
    let n = n_threads as u64;
    let per_thread = chunk / n;
    let extra = chunk % n;
    proof {
        assert(per_thread * n + extra == chunk) by (nonlinear_arith)
            requires
                per_thread == chunk / n,
                extra == chunk % n,
                n >= 1,
        ;
        assert(per_thread <= chunk) by (nonlinear_arith)
            requires
                per_thread * n + extra == chunk,
                n >= 1,
                extra >= 0,
        ;
        if per_thread == chunk {
            assert(extra == 0) by (nonlinear_arith)
                requires
                    per_thread * n + extra == chunk,
                    per_thread == chunk,
                    n >= 1,
                    extra >= 0,
            ;
        }
    }
    per_thread + if t < extra {
        1
    } else {
        0
    }
}

/// The iterations of threads `0..t` of a chunk.
pub open spec fn split_total(chunk: u64, n_threads: int, t: int) -> int
    decreases t,
{
    if t <= 0 {
        0
    } else {
        split_total(chunk, n_threads, t - 1) + chunk / (n_threads as u64) + if t - 1 < chunk % (
        n_threads as u64) {
            1int
        } else {
            0int
        }
    }
}

/// The threads of a chunk run exactly the chunk's iterations between them.
pub proof fn lemma_thread_split_total(chunk: u64, n_threads: int)
    requires
        1 <= n_threads <= u64::MAX,
    ensures
        split_total(chunk, n_threads, n_threads) == chunk,
{
    let n = n_threads as u64;
    let q = chunk / n;
    let e = chunk % n;
    assert forall|t: int| 0 <= t <= n_threads implies #[trigger] split_total(chunk, n_threads, t)
        == t * q + if t < e {
        t
    } else {
        e as int
    } by {
        lemma_split_prefix(chunk, n_threads, t);
    }
    assert(q * n + e == chunk) by (nonlinear_arith)
        requires
            q == chunk / n,
            e == chunk % n,
            n >= 1,
    ;
    assert(e < n);
}

/// The iterations of threads `0..t`: `t` equal shares plus the extra ones
/// among them.
proof fn lemma_split_prefix(chunk: u64, n_threads: int, t: int)
    requires
        1 <= n_threads <= u64::MAX,
        0 <= t,
    ensures
        split_total(chunk, n_threads, t) == t * (chunk / (n_threads as u64)) + if t < chunk % (
        n_threads as u64) {
            t
        } else {
            (chunk % (n_threads as u64)) as int
        },
    decreases t,
{
    if t > 0 {
        lemma_split_prefix(chunk, n_threads, t - 1);
        let q = chunk / (n_threads as u64);
        let e = chunk % (n_threads as u64);
        assert(t * q == (t - 1) * q + q) by (nonlinear_arith);
        assert(split_total(chunk, n_threads, t) == split_total(chunk, n_threads, t - 1) + q + if t
            - 1 < e {
            1int
        } else {
            0int
        });
        assert(split_total(chunk, n_threads, t - 1) == (t - 1) * q + if t - 1 < e {
            t - 1
        } else {
            e as int
        });
    } else {
        let q = chunk / (n_threads as u64);
        assert(t * q == 0) by (nonlinear_arith)
            requires
                t == 0,
        ;
    }
}

/// The seed of thread `t` in a chunk: the chunk's seed mixed with a
/// multiple of the golden-ratio constant, so the threads draw independent
/// streams.
pub fn thread_seed(chunk_seed: u64, t: u64) -> (s: u64)
    ensures
        s == chunk_seed ^ (((t as int) * 0x9e3779b97f4a7c15int) % 0x1_0000_0000_0000_0000int) as u64,
{
    chunk_seed ^ t.wrapping_mul(0x9e3779b97f4a7c15)
}

// ---------------------------------------------------------------------------
// Exact enumeration.

/// The runout made of the cards of `cards` at the positions `pos`.
pub open spec fn runout_at(cards: Seq<Card>, pos: Seq<usize>) -> Seq<Card> {
    pos.map_values(|p: usize| cards[p as int])
}

/// How many of the runouts `lo..hi` of the list end in a showdown whose
/// player value and best opponent value satisfy `f`.
pub open spec fn tally(
    state: GameState,
    cards: Seq<Card>,
    combos: Seq<Vec<usize>>,
    lo: int,
    hi: int,
    f: spec_fn(int, int) -> bool,
) -> int
    decreases hi - lo,
{
    if hi <= lo {
        0
    } else {
        let d = runout_at(cards, combos[hi - 1]@);
        let p = hand_eval(state.variant, state.hole_cards@, runout_board(state, d));
        let o = best_opponent(state, d, state.opponent_count as int);
        tally(state, cards, combos, lo, hi - 1, f) + if f(p, o) {
            1int
        } else {
            0int
        }
    }
}

/// The cards of `cards` at the positions `pos`.
pub fn runout_cards(cards: &[Card], pos: &Vec<usize>) -> (r: Vec<Card>)
    requires
        forall|i: int| 0 <= i < pos@.len() ==> #[trigger] pos@[i] < cards@.len(),
    ensures
        r@ == runout_at(cards@, pos@),
{
    let mut out: Vec<Card> = Vec::new();
    let mut i: usize = 0;
    while i < pos.len()
        invariant
            i <= pos@.len(),
            forall|k: int| 0 <= k < pos@.len() ==> #[trigger] pos@[k] < cards@.len(),
            out@ == runout_at(cards@, pos@.take(i as int)),
        decreases pos@.len() - i,
    {
        out.push(cards[pos[i]]);
        assert(runout_at(cards@, pos@.take(i + 1)) =~= runout_at(cards@, pos@.take(i as int)).push(
            cards@[pos@[i as int] as int],
        ));
        i += 1;
    }
    assert(pos@.take(i as int) =~= pos@);
    out
}

/// The cards a simulation draws from, in index order, with every runout of
/// them as increasing positions: each listed once, and all of them listed.
pub fn exact_runouts(state: &GameState) -> (r: (Vec<Card>, Vec<Vec<usize>>))
    requires
        state.simulation_size_fits(),
    ensures
        distinct_cards(r.0@),
        forall|k: int| 0 <= k < r.0@.len() ==> !known_indices(*state).contains(#[trigger] r.0@[k].idx()),
        r.0@.len() == vstd::set_lib::set_int_range(0, 52).difference(known_indices(*state)).len(),
        forall|j: int|
            0 <= j < r.1@.len() ==> is_combo(r.0@.len() as int, runout_len(*state), positions(#[trigger] r.1@[j]@)),
        forall|c: Seq<int>|
            #[trigger] is_combo(r.0@.len() as int, runout_len(*state), c) ==> exists|j: int|
                0 <= j < r.1@.len() && positions(#[trigger] r.1@[j]@) == c,
        forall|i: int, j: int| 0 <= i < j < r.1@.len() ==> r.1@[i]@ != r.1@[j]@,
{
    let deck = simulation_deck(state);
    let cards = deck.remaining_cards();
    let k = state.cards_to_simulate();
    let combos = position_combinations(cards.len(), k);
    proof {
        assert forall|k: int| 0 <= k < cards@.len() implies !known_indices(*state).contains(
            #[trigger] cards@[k].idx(),
        ) by {
            assert(deck@.contains(cards@[k].idx()));
        }
        assert(k as int == runout_len(*state));
    }
    let r = (cards, combos);
    proof {
        assert forall|c: Seq<int>| #[trigger] is_combo(r.0@.len() as int, runout_len(*state), c) implies exists|j: int|
            0 <= j < r.1@.len() && positions(#[trigger] r.1@[j]@) == c by {
            assert(is_combo(r.0@.len() as int, k as int, c));
            let j = choose|j: int| 0 <= j < r.1@.len() && positions(#[trigger] r.1@[j]@) == c;
        }
    }
    r
}

/// Score the runouts `from..to` of the list: the outcome counters grow by
/// the showdowns of exactly those runouts.
pub fn run_exact_range(
    ev: &HandEvaluator,
    state: &GameState,
    cards: &[Card],
    combos: &Vec<Vec<usize>>,
    from: usize,
    to: usize,
    acc: &mut SimAccumulator,
)
    requires
        from <= to <= combos@.len(),
        state.community_cards@.len() <= 5,
        distinct_cards(state.hole_cards@ + state.community_cards@),
        distinct_cards(cards@),
        disjoint_cards(state.hole_cards@ + state.community_cards@, cards@),
        forall|j: int|
            0 <= j < combos@.len() ==> is_combo(cards@.len() as int, runout_len(*state), positions(#[trigger] combos@[j]@)),
        old(acc).consistent(),
        old(acc).total + (to - from) <= u64::MAX,
    ensures
        final(acc).consistent(),
        final(acc).total == old(acc).total + (to - from),
        final(acc).wins == old(acc).wins + tally(*state, cards@, combos@, from as int, to as int, |p: int, o: int| p > o),
        final(acc).ties == old(acc).ties + tally(*state, cards@, combos@, from as int, to as int, |p: int, o: int| p == o),
        final(acc).losses == old(acc).losses + tally(*state, cards@, combos@, from as int, to as int, |p: int, o: int| p < o),
        forall|c: int|
            0 <= c < 10 ==> #[trigger] final(acc).hand_counts@[c] == old(acc).hand_counts@[c] + tally(
                *state,
                cards@,
                combos@,
                from as int,
                to as int,
                |p: int, o: int| category_of_value(p).idx() == c,
            ),
{
    let mut j: usize = from;
    while j < to
        invariant
            from <= j <= to <= combos@.len(),
            state.community_cards@.len() <= 5,
            distinct_cards(state.hole_cards@ + state.community_cards@),
            distinct_cards(cards@),
            disjoint_cards(state.hole_cards@ + state.community_cards@, cards@),
            forall|k: int|
                0 <= k < combos@.len() ==> is_combo(cards@.len() as int, runout_len(*state), positions(#[trigger] combos@[k]@)),
            acc.consistent(),
            old(acc).total + (to - from) <= u64::MAX,
            acc.total == old(acc).total + (j - from),
            acc.wins == old(acc).wins + tally(*state, cards@, combos@, from as int, j as int, |p: int, o: int| p > o),
            acc.ties == old(acc).ties + tally(*state, cards@, combos@, from as int, j as int, |p: int, o: int| p == o),
            acc.losses == old(acc).losses + tally(*state, cards@, combos@, from as int, j as int, |p: int, o: int| p < o),
            forall|c: int|
                0 <= c < 10 ==> #[trigger] acc.hand_counts@[c] == old(acc).hand_counts@[c] + tally(
                    *state,
                    cards@,
                    combos@,
                    from as int,
                    j as int,
                    |p: int, o: int| category_of_value(p).idx() == c,
                ),
        decreases to - j,
    {
        let pos = &combos[j];
        let ghost pc = positions(pos@);
        proof {
            assert(is_combo(cards@.len() as int, runout_len(*state), pc));
            assert forall|i: int| 0 <= i < pos@.len() implies #[trigger] pos@[i] < cards@.len() by {
                assert(pc[i] == pos@[i] as int);
            }
        }
        let d = runout_cards(cards, pos);
        proof {
            assert(distinct_cards(d@)) by {
                assert forall|a: int, b: int| 0 <= a < b < d@.len() implies d@[a].idx() != d@[b].idx() by {
                    assert(pc[a] < pc[b]);
                    assert(d@[a] == cards@[pos@[a] as int] && d@[b] == cards@[pos@[b] as int]);
                }
            }
            let known = state.hole_cards@ + state.community_cards@;
            assert(disjoint_cards(known, d@)) by {
                assert forall|a: int, b: int| 0 <= a < known.len() && 0 <= b < d@.len() implies known[a].idx()
                    != d@[b].idx() by {
                    assert(d@[b] == cards@[pos@[b] as int]);
                    assert(pc[b] == pos@[b] as int);
                }
            }
            lemma_runout_ok(*state, d@);
            lemma_room(*acc);
        }
        let ghost before = *acc;
        evaluate_exact_combo(ev, state, d.as_slice(), acc);
        proof {
            lemma_recorded_consistent(before, *acc, *state, d@);
            assert(d@ == runout_at(cards@, combos@[j as int]@));
            let p = hand_eval(state.variant, state.hole_cards@, runout_board(*state, d@));
            let cat = category_of_value(p).idx();
            assert forall|c: int| 0 <= c < 10 implies #[trigger] acc.hand_counts@[c] == old(acc).hand_counts@[c]
                + tally(
                *state,
                cards@,
                combos@,
                from as int,
                j + 1,
                |p: int, o: int| category_of_value(p).idx() == c,
            ) by {
                assert(acc.hand_counts@[c] == before.hand_counts@[c] + if c == cat {
                    1int
                } else {
                    0int
                });
            }
        }
        j += 1;
    }
}

} // verus!
