//! River showdown ranking for the range-versus-range solver: the value of
//! every two-card combination on a fixed five-card board, computed once,
//! with the combinations that use a board card marked as blocked.

use crate::bits::bit;
use crate::cards::card::{card_at, lemma_card_index_round_trip, Card};
use crate::eval::evaluator::{
    best_value, combo5, five_ok, fives_ok, lemma_best_over_unique, lemma_distinct_five_ok, pick5,
    HandEvaluator,
};
use crate::eval::rank::HandValue;
use crate::solver::range::{
    combo_pair, lemma_combo_pair, lemma_combo_pair_bounds, lemma_tri_closed, pair_index, tri, HandRange,
};
use vstd::prelude::*;

verus! {

/// Total number of two-card combos (52 choose 2).
pub const N_COMBOS: usize = 1326;

/// Combination `i` uses a card of the board.
pub open spec fn combo_blocked(board: Seq<Card>, i: int) -> bool {
    exists|j: int|
        0 <= j < board.len() && ((#[trigger] board[j]).idx() == combo_pair(i).0 || board[j].idx()
            == combo_pair(i).1)
}

/// The seven cards of combination `i` on the board: its two cards, then the
/// board.
pub open spec fn combo_seven(board: Seq<Card>, i: int) -> Seq<Card> {
    seq![card_at(combo_pair(i).0), card_at(combo_pair(i).1)] + board
}

/// The value of combination `i` at showdown on the board.
pub open spec fn combo_value(board: Seq<Card>, i: int) -> int {
    best_value(combo_seven(board, i), combo5(7))
}

/// Every combination that does not use a board card can be evaluated.
pub open spec fn ranker_ok(board: Seq<Card>) -> bool {
    forall|i: int|
        0 <= i < 1326 && !combo_blocked(board, i) ==> fives_ok(#[trigger] combo_seven(board, i), combo5(7))
}

/// Five different board cards can be ranked against every combination that
/// holds none of them: each such combination and the board are seven
/// different cards, and any five different cards can be evaluated.
pub proof fn lemma_distinct_board_ranker_ok(board: Seq<Card>)
    requires
        board.len() == 5,
        forall|i: int, j: int| 0 <= i < j < 5 ==> board[i] != board[j],
    ensures
        ranker_ok(board),
{
    assert forall|i: int| 0 <= i < 1326 && !combo_blocked(board, i) implies fives_ok(
        #[trigger] combo_seven(board, i),
        combo5(7),
    ) by {
        lemma_combo_pair_bounds(i);
        let p = combo_pair(i);
        let h = combo_seven(board, i);
        lemma_card_index_round_trip(board[0], p.0);
        lemma_card_index_round_trip(board[0], p.1);
        assert forall|a: int, b: int| 0 <= a < b < 7 implies h[a] != h[b] by {
            if b < 2 {
            } else if a < 2 {
                let j = b - 2;
                assert(h[b] == board[j]);
                assert(!(board[j].idx() == p.0 || board[j].idx() == p.1));
            } else {
                assert(h[a] == board[a - 2] && h[b] == board[b - 2]);
            }
        }
        assert forall|c: Seq<int>| combo5(7)(c) implies five_ok(#[trigger] pick5(h, c)) by {
            let f = pick5(h, c);
            assert forall|a: int, b: int| 0 <= a < b < 5 implies f[a] != f[b] by {
                assert(c[a] < c[b]);
                if a > 0 {
                    assert(c[0] < c[a]);
                }
                if b < 4 {
                    assert(c[b] < c[4]);
                }
            }
            lemma_distinct_five_ok(f);
        }
    }
}

/// How many of the combinations numbered below `n` use a board card.
pub open spec fn num_blocked(board: Seq<Card>, n: int) -> int
    decreases n,
{
    if n <= 0 {
        0
    } else {
        num_blocked(board, n - 1) + if combo_blocked(board, n - 1) {
            1int
        } else {
            0int
        }
    }
}

/// Card index `x` is the index of a board card.
spec fn on_board(board: Seq<Card>, x: int) -> bool {
    exists|j: int| 0 <= j < board.len() && (#[trigger] board[j]).idx() == x
}

/// How many card indices in `a..b` are board cards.
spec fn count_on(board: Seq<Card>, a: int, b: int) -> int
    decreases b - a,
{
    if b <= a {
        0
    } else {
        count_on(board, a, b - 1) + if on_board(board, b - 1) {
            1int
        } else {
            0int
        }
    }
}

/// Counting from `a` is counting `a` itself, then from `a + 1`.
proof fn lemma_count_on_front(board: Seq<Card>, a: int, b: int)
    requires
        a < b,
    ensures
        count_on(board, a, b) == count_on(board, a + 1, b) + if on_board(board, a) {
            1int
        } else {
            0int
        },
    decreases b - a,
{
    assert(count_on(board, a, a) == 0);
    assert(count_on(board, a + 1, a + 1) == 0);
    if b > a + 1 {
        lemma_count_on_front(board, a, b - 1);
        assert(count_on(board, a + 1, b) == count_on(board, a + 1, b - 1) + if on_board(board, b - 1) {
            1int
        } else {
            0int
        });
    }
}

/// The board cards with index below `b`, counted, are as many as their set
/// holds.
proof fn lemma_count_on_set(board: Seq<Card>, b: int)
    requires
        0 <= b,
    ensures
        Set::new(|x: int| 0 <= x < b && on_board(board, x)).finite(),
        Set::new(|x: int| 0 <= x < b && on_board(board, x)).len() == count_on(board, 0, b),
    decreases b,
{
    broadcast use vstd::set::group_set_axioms;

    let s = Set::new(|x: int| 0 <= x < b && on_board(board, x));
    if b == 0 {
        assert(s =~= Set::<int>::empty());
    } else {
        lemma_count_on_set(board, b - 1);
        let t = Set::new(|x: int| 0 <= x < b - 1 && on_board(board, x));
        if on_board(board, b - 1) {
            assert(s =~= t.insert(b - 1));
        } else {
            assert(s =~= t);
        }
    }
}

/// Five different cards are five different card indices below 52.
proof fn lemma_board_count(board: Seq<Card>)
    requires
        board.len() == 5,
        forall|i: int, j: int| 0 <= i < j < 5 ==> board[i] != board[j],
    ensures
        count_on(board, 0, 52) == 5,
{
    let ids = board.map_values(|c: Card| c.idx());
    assert forall|i: int| 0 <= i < 5 implies 0 <= #[trigger] ids[i] < 52 && card_at(ids[i])
        == board[i] by {
        lemma_card_index_round_trip(board[i], 0);
    }
    assert(ids.no_duplicates()) by {
        assert forall|i: int, j: int| 0 <= i < 5 && 0 <= j < 5 && i != j implies ids[i] != ids[j] by {
            if i < j {
                assert(board[i] != board[j]);
            } else {
                assert(board[j] != board[i]);
            }
        }
    }
    ids.unique_seq_to_set();
    lemma_count_on_set(board, 52);
    assert(Set::new(|x: int| 0 <= x < 52 && on_board(board, x)) =~= ids.to_set()) by {
        assert forall|x: int| #[trigger] ids.to_set().contains(x) implies 0 <= x < 52 && on_board(
            board,
            x,
        ) by {
            let i = choose|i: int| 0 <= i < ids.len() && ids[i] == x;
            assert(board[i].idx() == x);
        }
        assert forall|x: int| 0 <= x < 52 && on_board(board, x) implies #[trigger] ids.to_set().contains(
            x,
        ) by {
            let j = choose|j: int| 0 <= j < board.len() && (#[trigger] board[j]).idx() == x;
            assert(ids[j] == x);
        }
    }
}

/// Within the group of combinations whose lower card is `lo`, the first `j`
/// are blocked all when `lo` is a board card, else as often as their higher
/// card is one.
proof fn lemma_group_blocked(board: Seq<Card>, lo: int, j: int)
    requires
        0 <= lo < 52,
        0 <= j <= 51 - lo,
    ensures
        num_blocked(board, tri(lo) + j) == num_blocked(board, tri(lo)) + if on_board(board, lo) {
            j
        } else {
            count_on(board, lo + 1, lo + 1 + j)
        },
    decreases j,
{
    if j > 0 {
        lemma_group_blocked(board, lo, j - 1);
        let hi = lo + j;
        lemma_combo_pair(lo, hi);
        assert(pair_index(lo, hi) == tri(lo) + j - 1);
        let i = tri(lo) + j - 1;
        lemma_tri_closed(lo);
        assert(tri(lo) >= 0) by (nonlinear_arith)
            requires
                2 * tri(lo) == lo * (103 - lo),
                0 <= lo < 52,
        ;
        assert(combo_blocked(board, i) <==> (on_board(board, lo) || on_board(board, hi))) by {
            if on_board(board, lo) {
                let k = choose|k: int| 0 <= k < board.len() && (#[trigger] board[k]).idx() == lo;
                assert(board[k].idx() == combo_pair(i).0);
            }
            if on_board(board, hi) {
                let k = choose|k: int| 0 <= k < board.len() && (#[trigger] board[k]).idx() == hi;
                assert(board[k].idx() == combo_pair(i).1);
            }
        }
    }
}

/// Counting the blocked combinations down from the last group: above group
/// `lo`, with `n = 52 - lo` card indices of which `k` are board cards, twice
/// the count is `k * (2n - k - 1)`, all pairs of those indices less those
/// that hold no board card.
proof fn lemma_blocked_above(board: Seq<Card>, lo: int)
    requires
        0 <= lo <= 51,
    ensures
        ({
            let n = 52 - lo;
            let k = count_on(board, lo, 52);
            2 * (num_blocked(board, 1326) - num_blocked(board, tri(lo))) == k * (2 * n - k - 1)
        }),
    decreases 51 - lo,
{
    lemma_tri_closed(51);
    lemma_count_on_front(board, lo, 52);
    if lo == 51 {
        assert(count_on(board, 52, 52) == 0);
        assert(tri(51) == 1326);
        let k = count_on(board, 51, 52);
        assert(k == 0 || k == 1);
        assert(k * (2 * 1 - k - 1) == 0) by (nonlinear_arith)
            requires
                k == 0 || k == 1,
        ;
    } else {
        lemma_blocked_above(board, lo + 1);
        lemma_group_blocked(board, lo, 51 - lo);
        lemma_tri_closed(lo);
        lemma_tri_closed(lo + 1);
        assert(tri(lo + 1) == tri(lo) + 51 - lo) by (nonlinear_arith)
            requires
                2 * tri(lo) == lo * (103 - lo),
                2 * tri(lo + 1) == (lo + 1) * (103 - (lo + 1)),
        ;
        let n = 52 - lo;
        let k1 = count_on(board, lo + 1, 52);
        let d = num_blocked(board, 1326) - num_blocked(board, tri(lo + 1));
        if on_board(board, lo) {
            assert(2 * (d + 51 - lo) == (k1 + 1) * (2 * n - (k1 + 1) - 1)) by (nonlinear_arith)
                requires
                    2 * d == k1 * (2 * (n - 1) - k1 - 1),
                    n == 52 - lo,
            ;
        } else {
            assert(2 * (d + k1) == k1 * (2 * n - k1 - 1)) by (nonlinear_arith)
                requires
                    2 * d == k1 * (2 * (n - 1) - k1 - 1),
            ;
        }
    }
}

/// On five different board cards exactly 245 combinations are blocked: all
/// 1326 less the 1081 pairs of the 47 other cards.
pub proof fn lemma_blocked_count(board: Seq<Card>)
    requires
        board.len() == 5,
        forall|i: int, j: int| 0 <= i < j < 5 ==> board[i] != board[j],
    ensures
        num_blocked(board, 1326) == 245,
{
    lemma_board_count(board);
    lemma_blocked_above(board, 0);
    assert(tri(0) == 0);
}

/// Precomputed per-combination hand values on a fixed five-card board.
pub struct ShowdownRanker {
    /// Hand value of each combination, or `i16::MIN` when it is blocked.
    rank: Vec<i16>,
    /// The cards of each combination, one bit per card index.
    mask: Vec<u64>,
    /// Whether each combination uses a board card.
    blocked: Vec<bool>,
    /// The board the values are for.
    board: Ghost<Seq<Card>>,
}

/// Setting bit `x` keeps the other bits.
proof fn lemma_or_bit(m: u64, x: u64, t: u64)
    by (bit_vector)
    requires
        x < 64,
        t < 64,
    ensures
        (0u64 >> t) & 1 == 0,
        ((m | (1u64 << x)) >> t) & 1 == 1 <==> ((m >> t) & 1 == 1 || t == x),
        ((m >> t) & 1 == 1) ==> (((1u64 << x) | (1u64 << t)) & m != 0),
        ((((1u64 << x) | (1u64 << t)) & m) != 0) ==> ((m >> t) & 1 == 1 || (m >> x) & 1 == 1),
        ((m >> x) & 1 == 1) ==> (((1u64 << x) | (1u64 << t)) & m != 0),
{
}

impl ShowdownRanker {
    /// The rows hold what the board gives each combination.
    #[verifier::type_invariant]
    spec fn rows_hold(self) -> bool {
        &&& self.rank@.len() == 1326
        &&& self.mask@.len() == 1326
        &&& self.blocked@.len() == 1326
        &&& forall|i: int| 0 <= i < 1326 ==> #[trigger] self.blocked@[i] == combo_blocked(self.board@, i)
        &&& forall|i: int|
            0 <= i < 1326 && !self.blocked@[i] ==> #[trigger] self.rank@[i] as int == combo_value(self.board@, i)
                && 0 <= self.rank@[i]
        &&& forall|i: int|
            0 <= i < 1326 ==> #[trigger] self.mask@[i] == (1u64 << (combo_pair(i).0 as u64)) | (1u64
                << (combo_pair(i).1 as u64))
    }

    /// The board the ranker was built for.
    pub closed spec fn board(self) -> Seq<Card> {
        self.board@
    }

    /// Build a ranker for the given five-card board: evaluates all 1326
    /// combinations once; those holding a board card are marked blocked (245
    /// of them when the five board cards are different).
    pub fn new(board: &[Card; 5]) -> (r: ShowdownRanker)
        requires
            ranker_ok(board@),
        ensures
            r.board() == board@,
            (forall|i: int, j: int| 0 <= i < j < 5 ==> board@[i] != board@[j]) ==> num_blocked(
                r.board(),
                1326,
            ) == 245,
    {
        proof {
            if forall|i: int, j: int| 0 <= i < j < 5 ==> board@[i] != board@[j] {
                lemma_blocked_count(board@);
            }
        }
        let ev = HandEvaluator::new();
        let mut board_mask: u64 = 0;
        proof {
            assert forall|t: u64| t < 64 implies (#[trigger] bit(board_mask, t) <==> exists|j: int|
                0 <= j < 0 && board@[j].idx() == t) by {
                lemma_or_bit(0, 0, t);
            }
        }
        let mut b: usize = 0;
        while b < 5
            invariant
                b <= 5,
                forall|t: u64|
                    t < 64 ==> (#[trigger] bit(board_mask, t) <==> exists|j: int|
                        0 <= j < b && board@[j].idx() == t),
            decreases 5 - b,
        {
            let x = board[b].index() as u64;
            proof {
                assert forall|t: u64| t < 64 implies (#[trigger] bit(board_mask | (1u64 << x), t)
                    <==> exists|j: int| 0 <= j < b + 1 && board@[j].idx() == t) by {
                    lemma_or_bit(board_mask, x, t);
                    assert(bit(board_mask, t) == ((board_mask >> t) & 1 == 1));
                    if t == x {
                        assert(board@[b as int].idx() == t);
                    }
                }
            }
            board_mask = board_mask | (1u64 << x);
            b += 1;
        }
        let mut rank: Vec<i16> = Vec::new();
        let mut mask: Vec<u64> = Vec::new();
        let mut blocked: Vec<bool> = Vec::new();
        let mut combo_idx: u16 = 0;
        while combo_idx < 1326
            invariant
                combo_idx <= 1326,
                ranker_ok(board@),
                forall|t: u64|
                    t < 64 ==> (#[trigger] bit(board_mask, t) <==> exists|j: int|
                        0 <= j < 5 && board@[j].idx() == t),
                rank@.len() == combo_idx,
                mask@.len() == combo_idx,
                blocked@.len() == combo_idx,
                forall|i: int| 0 <= i < combo_idx ==> #[trigger] blocked@[i] == combo_blocked(board@, i),
                forall|i: int|
                    0 <= i < combo_idx && !blocked@[i] ==> #[trigger] rank@[i] as int == combo_value(board@, i)
                        && 0 <= rank@[i],
                forall|i: int|
                    0 <= i < combo_idx ==> #[trigger] mask@[i] == (1u64 << (combo_pair(i).0 as u64)) | (1u64
                        << (combo_pair(i).1 as u64)),
            decreases 1326 - combo_idx,
        {
            let (c1, c2) = HandRange::cards_from_index(combo_idx);
            let lo = c1.index() as u64;
            let hi = c2.index() as u64;
            let combo_mask = (1u64 << lo) | (1u64 << hi);
            mask.push(combo_mask);
            let ghost i = combo_idx as int;
            proof {
                lemma_card_index_round_trip(c1, combo_pair(i).0);
                lemma_card_index_round_trip(c2, combo_pair(i).1);
                lemma_or_bit(board_mask, lo, hi);
                assert(bit(board_mask, hi) == ((board_mask >> hi) & 1 == 1));
                assert(bit(board_mask, lo) == ((board_mask >> lo) & 1 == 1));
                assert(combo_pair(i) == (lo as int, hi as int));
            }
            if combo_mask & board_mask != 0 {
                proof {
                    if bit(board_mask, hi) {
                        let j = choose|j: int| 0 <= j < 5 && board@[j].idx() == hi;
                        assert(board@[j].idx() == combo_pair(i).1);
                    } else {
                        assert(bit(board_mask, lo));
                        let j = choose|j: int| 0 <= j < 5 && board@[j].idx() == lo;
                        assert(board@[j].idx() == combo_pair(i).0);
                    }
                }
                blocked.push(true);
                rank.push(i16::MIN);
            } else {
                proof {
                    if combo_blocked(board@, i) {
                        let j = choose|j: int|
                            0 <= j < board@.len() && ((#[trigger] board@[j]).idx() == combo_pair(i).0
                                || board@[j].idx() == combo_pair(i).1);
                        if board@[j].idx() == lo {
                            assert(bit(board_mask, lo));
                        } else {
                            assert(bit(board_mask, hi));
                        }
                    }
                    assert(!combo_blocked(board@, i));
                }
                let seven = [c1, c2, board[0], board[1], board[2], board[3], board[4]];
                proof {
                    assert(seven@ =~= combo_seven(board@, i));
                }
                let hv = ev.best_five_of_seven(&seven);
                proof {
                    lemma_best_over_unique(seven@, combo5(7), hv.0 as int);
                    crate::eval::evaluator::lemma_best_over_bound(seven@, combo5(7), hv.0 as int);
                }
                blocked.push(false);
                rank.push(hv.0 as i16);
            }
            combo_idx += 1;
        }
        ShowdownRanker { rank, mask, blocked, board: Ghost(board@) }
    }

    /// Hand value of a combination, or `None` when it uses a board card.
    pub fn rank(&self, combo_idx: u16) -> (r: Option<HandValue>)
        requires
            combo_idx < 1326,
        ensures
            r is None <==> combo_blocked(self.board(), combo_idx as int),
            r matches Some(v) ==> v.0 as int == combo_value(self.board(), combo_idx as int),
    {
        proof {
            use_type_invariant(self);
        }
        if self.blocked[combo_idx as usize] {
            None
        } else {
            Some(HandValue(self.rank[combo_idx as usize] as u16))
        }
    }

    /// Whether combination `combo_idx` uses a board card.
    pub fn is_blocked(&self, combo_idx: u16) -> (r: bool)
        requires
            combo_idx < 1326,
        ensures
            r == combo_blocked(self.board(), combo_idx as int),
    {
        proof {
            use_type_invariant(self);
        }
        self.blocked[combo_idx as usize]
    }

    /// The cards of a combination as a bit set over the card indices: two
    /// combinations can be dealt together exactly when their masks share no
    /// bit.
    pub fn combo_mask(&self, combo_idx: u16) -> (m: u64)
        requires
            combo_idx < 1326,
        ensures
            m == (1u64 << (combo_pair(combo_idx as int).0 as u64)) | (1u64 << (combo_pair(
                combo_idx as int,
            ).1 as u64)),
    {
        proof {
            use_type_invariant(self);
        }
        self.mask[combo_idx as usize]
    }
}

} // verus!
