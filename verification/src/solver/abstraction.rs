//! Card abstraction: mapping a holding and a board to a bucket, and the
//! showdown counts behind expected hand strength.

use crate::cards::card::{lemma_card_index_round_trip, Card};
use crate::cards::deck::Deck;
use crate::eval::evaluator::{
    best_value, combo5, fives_ok, lemma_best_over_unique, lemma_distinct_fives_ok,
    HandEvaluator,
};
use crate::sim::engine::{distinct_cards, lemma_distinct_concat, lemma_distinct_parts};
use crate::solver::range::{combo_pair, spec_combo_index, HandRange};
use crate::solver::showdown::{combo_blocked, combo_seven, combo_value};
use rand_xoshiro::Xoshiro256PlusPlus;
use vstd::prelude::*;

verus! {

/// Mapping (hole cards, board) to an integer bucket: card abstraction groups
/// strategically similar hands together to shrink the state space.
pub trait CardAbstraction {
    /// The bucket of a player's hole cards on the public board.
    fn bucket(&self, hole: [Card; 2], board: &[Card]) -> u16
        requires
            !(hole@[0].idx() == 0 && hole@[1].idx() == 0),
    ;

    /// Total number of buckets.
    fn num_buckets(&self) -> u16;
}

/// No abstraction: each distinct hand is its own bucket.
pub struct NoAbstraction {
    n_buckets: u16,
}

impl NoAbstraction {
    /// The bucket count it reports.
    pub closed spec fn buckets(self) -> u16 {
        self.n_buckets
    }

    pub fn new(n_buckets: u16) -> (r: Self)
        ensures
            r.buckets() == n_buckets,
    {
        NoAbstraction { n_buckets }
    }
}

impl CardAbstraction for NoAbstraction {
    /// The combination number of the hole cards.
    fn bucket(&self, hole: [Card; 2], board: &[Card]) -> (r: u16)
        ensures
            r as int == spec_combo_index(hole@[0], hole@[1]),
    {
        HandRange::combo_index(hole[0], hole[1])
    }

    fn num_buckets(&self) -> (r: u16)
        ensures
            r == self.buckets(),
    {
        self.n_buckets
    }
}

/// Equity-based abstraction: hands grouped into buckets by their expected
/// hand strength.
pub struct EquityBuckets {
    /// Number of equity buckets.
    pub n_buckets: u16,
}

impl EquityBuckets {
    pub fn new(n_buckets: u16) -> (r: Self)
        ensures
            r.n_buckets == n_buckets,
    {
        EquityBuckets { n_buckets }
    }
}

/// Opponent holdings among the combinations below `n` that use no known
/// card, and whose showdown on the board satisfies `f(ours, theirs)`.
pub open spec fn holding_tally(
    known: Seq<Card>,
    board: Seq<Card>,
    ours: int,
    n: int,
    f: spec_fn(int, int) -> bool,
) -> int
    decreases n,
{
    if n <= 0 {
        0
    } else {
        holding_tally(known, board, ours, n - 1, f) + if !combo_blocked(known, n - 1) && f(
            ours,
            combo_value(board, n - 1),
        ) {
            1int
        } else {
            0int
        }
    }
}

/// Seven different cards can be evaluated.
proof fn lemma_seven_ok(h: Seq<Card>)
    requires
        h.len() == 7,
        distinct_cards(h),
    ensures
        fives_ok(h, combo5(7)),
{
    assert forall|i: int, j: int| 0 <= i < j < h.len() implies h[i] != h[j] by {
        assert(h[i].idx() != h[j].idx());
    }
    lemma_distinct_fives_ok(h, combo5(7));
}

/// Whether a card with index `a` or `b` is among `known`.
fn touches(known: &[Card], a: u8, b: u8) -> (r: bool)
    ensures
        r == exists|j: int|
            0 <= j < known@.len() && ((#[trigger] known@[j]).idx() == a || known@[j].idx() == b),
{
    let mut j: usize = 0;
    while j < known.len()
        invariant
            j <= known@.len(),
            forall|k: int| 0 <= k < j ==> (#[trigger] known@[k]).idx() != a && known@[k].idx() != b,
        decreases known@.len() - j,
    {
        let x = known[j].index();
        if x == a || x == b {
            return true;
        }
        j += 1;
    }
    false
}

/// Showdown counts on the river against every opponent holding that uses
/// none of our cards or the board's: `(wins, ties, holdings)`. Expected hand
/// strength is `(wins + ties / 2) / holdings`.
pub fn river_counts(ev: &HandEvaluator, hole: [Card; 2], board: &[Card; 5]) -> (r: (u32, u32, u32))
    requires
        distinct_cards(hole@ + board@),
    ensures
        ({
            let known = hole@ + board@;
            let ours = best_value(hole@ + board@, combo5(7));
            &&& r.0 == holding_tally(known, board@, ours, 1326, |a: int, b: int| a > b)
            &&& r.1 == holding_tally(known, board@, ours, 1326, |a: int, b: int| a == b)
            &&& r.2 == holding_tally(known, board@, ours, 1326, |a: int, b: int| true)
        }),
{
    let ghost known = hole@ + board@;
    let ours_cards = [hole[0], hole[1], board[0], board[1], board[2], board[3], board[4]];
    let known_cards = ours_cards;
    proof {
        assert(ours_cards@ =~= known);
        lemma_seven_ok(ours_cards@);
    }
    let our_value = ev.best_five_of_seven(&ours_cards);
    let ghost ours = best_value(known, combo5(7));
    proof {
        lemma_best_over_unique(ours_cards@, combo5(7), our_value.0 as int);
    }
    let mut wins: u32 = 0;
    let mut ties: u32 = 0;
    let mut total: u32 = 0;
    let mut i: u16 = 0;
    while i < 1326
        invariant
            i <= 1326,
            known == hole@ + board@,
            known_cards@ == known,
            distinct_cards(known),
            our_value.0 as int == ours,
            ours == best_value(known, combo5(7)),
            wins as int == holding_tally(known, board@, ours, i as int, |a: int, b: int| a > b),
            ties as int == holding_tally(known, board@, ours, i as int, |a: int, b: int| a == b),
            total as int == holding_tally(known, board@, ours, i as int, |a: int, b: int| true),
            wins <= i && ties <= i && total <= i,
        decreases 1326 - i,
    {
        let (c1, c2) = HandRange::cards_from_index(i);
        let a = c1.index();
        let b = c2.index();
        proof {
            lemma_card_index_round_trip(c1, combo_pair(i as int).0);
            lemma_card_index_round_trip(c2, combo_pair(i as int).1);
        }
        if !touches(known_cards.as_slice(), a, b) {
            let seven = [c1, c2, board[0], board[1], board[2], board[3], board[4]];
            proof {
                assert(seven@ =~= combo_seven(board@, i as int));
                let pair = seq![c1, c2];
                assert(distinct_cards(pair)) by {
                    assert(pair[0].idx() != pair[1].idx());
                }
                lemma_distinct_concat(hole@, board@);
                assert(distinct_cards(seven@)) by {
                    lemma_distinct_concat(pair, board@);
                    assert forall|x: int, y: int| 0 <= x < pair.len() && 0 <= y < board@.len() implies pair[x].idx()
                        != board@[y].idx() by {
                        assert(known[2 + y] == board@[y]);
                    }
                    assert(seven@ == pair + board@);
                }
                lemma_seven_ok(seven@);
            }
            let opp_value = ev.best_five_of_seven(&seven);
            proof {
                lemma_best_over_unique(seven@, combo5(7), opp_value.0 as int);
            }
            total += 1;
            if our_value.0 > opp_value.0 {
                wins += 1;
            } else if our_value.0 == opp_value.0 {
                ties += 1;
            }
        }
        i += 1;
    }
    (wins, ties, total)
}

/// Showdown counts over `n_rollouts` random completions of the board and
/// opponent holdings: `(wins, ties)`. Expected hand strength is
/// `(wins + ties / 2) / n_rollouts`. Each rollout is dealt from the cards
/// nobody holds; which ones come is left to the generator, and the counts
/// are exactly the wins and ties among them.
pub fn monte_carlo_counts(
    ev: &HandEvaluator,
    hole: [Card; 2],
    board: &[Card],
    rng: &mut Xoshiro256PlusPlus,
    n_rollouts: u32,
) -> (r: (u32, u32))
    requires
        board@.len() <= 5,
        distinct_cards(hole@ + board@),
    ensures
        exists|rs: Seq<Seq<Card>>|
            #![trigger rollout_wins(hole@, board@, rs)]
            rs.len() == n_rollouts && (forall|i: int|
                0 <= i < rs.len() ==> rollout_cards_ok(
                    hole@ + board@,
                    board@.len() as int,
                    #[trigger] rs[i],
                )) && r.0 == rollout_wins(hole@, board@, rs) && r.1 == rollout_ties(hole@, board@, rs),
{
    let mut wins: u32 = 0;
    let mut ties: u32 = 0;
    let mut k: u32 = 0;
    let ghost mut rs: Seq<Seq<Card>> = Seq::empty();
    while k < n_rollouts
        invariant
            k <= n_rollouts,
            rs.len() == k,
            forall|i: int| 0 <= i < rs.len() ==> rollout_cards_ok(hole@ + board@, board@.len() as int, #[trigger] rs[i]),
            wins == rollout_wins(hole@, board@, rs),
            ties == rollout_ties(hole@, board@, rs),
            wins + ties <= k,
            board@.len() <= 5,
            distinct_cards(hole@ + board@),
        decreases n_rollouts - k,
    {
        let (our_win, our_tie) = rollout(ev, hole, board, rng);
        let ghost runout = choose|runout: Seq<Card>|
            #![trigger rollout_values(hole@, board@, runout)]
            rollout_cards_ok(hole@ + board@, board@.len() as int, runout) && our_win == (rollout_values(
                hole@,
                board@,
                runout,
            ).0 > rollout_values(hole@, board@, runout).1) && our_tie == (rollout_values(
                hole@,
                board@,
                runout,
            ).0 == rollout_values(hole@, board@, runout).1);
        proof {
            let rs2 = rs.push(runout);
            assert(rs2.drop_last() =~= rs);
            assert(rs2.last() == runout);
            rs = rs2;
        }
        if our_win {
            wins += 1;
        } else if our_tie {
            ties += 1;
        }
        k += 1;
    }
    (wins, ties)
}

/// A rollout's cards: the rest of the board, then the opponent's two hole
/// cards, all different and none of them held by us or on the board.
pub open spec fn rollout_cards_ok(known: Seq<Card>, board_len: int, runout: Seq<Card>) -> bool {
    &&& runout.len() == 5 - board_len + 2
    &&& distinct_cards(runout)
    &&& forall|x: int, i: int|
        0 <= x < runout.len() && 0 <= i < known.len() ==> (#[trigger] runout[x]).idx() != (
        #[trigger] known[i]).idx()
}

/// Our best value and the opponent's after a rollout: the board completed
/// by the first cards of the runout, the opponent holding the last two.
pub open spec fn rollout_values(hole: Seq<Card>, board: Seq<Card>, runout: Seq<Card>) -> (int, int) {
    let needed = 5 - board.len();
    let full = board + runout.take(needed);
    (
        best_value(hole + full, combo5(7)),
        best_value(runout.subrange(needed, needed + 2) + full, combo5(7)),
    )
}

/// How many of the rollouts `rs` satisfy `f(ours, theirs)`.
pub open spec fn rollout_tally(
    hole: Seq<Card>,
    board: Seq<Card>,
    rs: Seq<Seq<Card>>,
    f: spec_fn(int, int) -> bool,
) -> nat
    decreases rs.len(),
{
    if rs.len() == 0 {
        0
    } else {
        let v = rollout_values(hole, board, rs.last());
        rollout_tally(hole, board, rs.drop_last(), f) + if f(v.0, v.1) {
            1nat
        } else {
            0nat
        }
    }
}

/// How many of the rollouts `rs` we win.
pub open spec fn rollout_wins(hole: Seq<Card>, board: Seq<Card>, rs: Seq<Seq<Card>>) -> nat {
    rollout_tally(hole, board, rs, |a: int, b: int| a > b)
}

/// How many of the rollouts `rs` we tie.
pub open spec fn rollout_ties(hole: Seq<Card>, board: Seq<Card>, rs: Seq<Seq<Card>>) -> nat {
    rollout_tally(hole, board, rs, |a: int, b: int| a == b)
}

/// One random rollout: complete the board and deal an opponent two cards
/// from the cards nobody holds, then compare the two hands: `(win, tie)`.
fn rollout(ev: &HandEvaluator, hole: [Card; 2], board: &[Card], rng: &mut Xoshiro256PlusPlus) -> (r: (
    bool,
    bool,
))
    requires
        board@.len() <= 5,
        distinct_cards(hole@ + board@),
    ensures
        exists|runout: Seq<Card>|
            #![trigger rollout_values(hole@, board@, runout)]
            rollout_cards_ok(hole@ + board@, board@.len() as int, runout) && r.0 == (rollout_values(
                hole@,
                board@,
                runout,
            ).0 > rollout_values(hole@, board@, runout).1) && r.1 == (rollout_values(
                hole@,
                board@,
                runout,
            ).0 == rollout_values(hole@, board@, runout).1),
{
    let ghost known = hole@ + board@;
    let mut deck = Deck::new();
    proof {
        deck.lemma_view_bounds();
        vstd::set_lib::lemma_int_range(0, 52);
    }
    deck.remove(hole[0]);
    deck.remove(hole[1]);
    let mut j: usize = 0;
    while j < board.len()
        invariant
            j <= board@.len(),
            board@.len() <= 5,
            known == hole@ + board@,
            deck@.finite(),
            deck@.len() + 2 + j >= 52,
            forall|i: int| 0 <= i < 2 + j ==> !deck@.contains(#[trigger] known[i].idx()),
        decreases board@.len() - j,
    {
        deck.remove(board[j]);
        proof {
            assert(known[2 + j] == board@[j as int]);
        }
        j += 1;
    }
    let mut full_board: Vec<Card> = Vec::new();
    let mut b: usize = 0;
    while b < board.len()
        invariant
            b <= board@.len(),
            full_board@ == board@.take(b as int),
        decreases board@.len() - b,
    {
        full_board.push(board[b]);
        assert(board@.take(b + 1) =~= board@.take(b as int).push(board@[b as int]));
        b += 1;
    }
    assert(board@.take(b as int) =~= board@);
    let needed = 5 - board.len();
    let mut dealt: Vec<Card> = Vec::new();
    let mut d: usize = 0;
    while d < needed + 2
        invariant
            d <= needed + 2,
            needed + board@.len() == 5,
            known == hole@ + board@,
            dealt@.len() == d,
            deck@.finite(),
            deck@.len() + d >= 45,
            forall|i: int| 0 <= i < known.len() ==> !deck@.contains(#[trigger] known[i].idx()),
            forall|x: int, i: int|
                0 <= x < dealt@.len() && 0 <= i < known.len() ==> (#[trigger] dealt@[x]).idx()
                    != (#[trigger] known[i]).idx(),
            forall|x: int| 0 <= x < dealt@.len() ==> !deck@.contains(#[trigger] dealt@[x].idx()),
            distinct_cards(dealt@),
        decreases needed + 2 - d,
    {
        let ghost before = deck@;
        match deck.deal_random(rng) {
            Some(c) => {
                proof {
                    assert forall|x: int| 0 <= x < dealt@.len() implies dealt@[x].idx() != c.idx() by {
                        assert(!before.contains(dealt@[x].idx()));
                    }
                    assert forall|i: int| 0 <= i < known.len() implies c.idx() != (#[trigger] known[i]).idx() by {
                        assert(!before.contains(known[i].idx()));
                    }
                }
                dealt.push(c);
            },
            None => {
                proof {
                    assert(false);
                }
            },
        }
        d += 1;
    }
    let ghost runout = dealt@;
    let mut t: usize = 0;
    while t < needed
        invariant
            t <= needed,
            needed + board@.len() == 5,
            dealt@ == runout,
            runout.len() == needed + 2,
            full_board@ == board@ + runout.take(t as int),
        decreases needed - t,
    {
        full_board.push(dealt[t]);
        assert(runout.take(t + 1) =~= runout.take(t as int).push(runout[t as int]));
        t += 1;
    }
    let opp1 = dealt[needed];
    let opp2 = dealt[needed + 1];
    let ours = [hole[0], hole[1], full_board[0], full_board[1], full_board[2], full_board[3], full_board[4]];
    let theirs = [opp1, opp2, full_board[0], full_board[1], full_board[2], full_board[3], full_board[4]];
    proof {
        assert(full_board@.len() == 5);
        lemma_runout_distinct(hole@, board@, runout, needed as int);
        assert(ours@ =~= hole@ + (board@ + runout.take(needed as int)));
        assert(theirs@ =~= runout.subrange(needed as int, needed + 2) + (board@ + runout.take(needed as int)));
        lemma_seven_ok(ours@);
        lemma_seven_ok(theirs@);
    }
    let our_value = ev.best_five_of_seven(&ours);
    let opp_value = ev.best_five_of_seven(&theirs);
    proof {
        lemma_best_over_unique(ours@, combo5(7), our_value.0 as int);
        lemma_best_over_unique(theirs@, combo5(7), opp_value.0 as int);
        assert(rollout_values(hole@, board@, runout) == (our_value.0 as int, opp_value.0 as int));
        assert(rollout_cards_ok(known, board@.len() as int, runout));
    }
    (our_value.0 > opp_value.0, our_value.0 == opp_value.0)
}

/// Our hand and the opponent's, completed from a runout of different cards
/// that nobody holds, are each seven different cards.
proof fn lemma_runout_distinct(hole: Seq<Card>, board: Seq<Card>, runout: Seq<Card>, needed: int)
    requires
        distinct_cards(hole + board),
        distinct_cards(runout),
        forall|x: int, i: int|
            0 <= x < runout.len() && 0 <= i < (hole + board).len() ==> (#[trigger] runout[x]).idx()
                != (#[trigger] (hole + board)[i]).idx(),
        0 <= needed,
        runout.len() == needed + 2,
    ensures
        distinct_cards(hole + (board + runout.take(needed))),
        distinct_cards(runout.subrange(needed, needed + 2) + (board + runout.take(needed))),
{
    let known = hole + board;
    let drawn = runout.take(needed);
    let opp = runout.subrange(needed, needed + 2);
    lemma_distinct_concat(hole, board);
    lemma_distinct_parts(runout, 0, needed, needed, needed + 2);
    assert(drawn == runout.subrange(0, needed));
    assert forall|x: int, y: int| 0 <= x < board.len() && 0 <= y < drawn.len() implies board[x].idx()
        != drawn[y].idx() by {
        assert(known[hole.len() + x] == board[x]);
        assert(drawn[y] == runout[y]);
    }
    lemma_distinct_concat(board, drawn);
    let full = board + drawn;
    assert forall|x: int, y: int| 0 <= x < hole.len() && 0 <= y < full.len() implies hole[x].idx()
        != full[y].idx() by {
        assert(known[x] == hole[x]);
        if y < board.len() {
            assert(full[y] == board[y]);
        } else {
            assert(full[y] == runout[y - board.len()]);
        }
    }
    lemma_distinct_concat(hole, full);
    assert forall|x: int, y: int| 0 <= x < opp.len() && 0 <= y < full.len() implies opp[x].idx()
        != full[y].idx() by {
        assert(opp[x] == runout[needed + x]);
        if y < board.len() {
            assert(full[y] == board[y]);
            assert(known[hole.len() + y] == board[y]);
        } else {
            assert(full[y] == runout[y - board.len()]);
        }
    }
    lemma_distinct_concat(opp, full);
}

} // verus!
