//! Hand evaluation: five cards by table lookup, and the best five-card hand
//! among more cards.
//!
//! A `HandEvaluator` owns the three lookup tables. Every evaluation is proved
//! to give `hand_value`, the value of the hand under the poker ranking that
//! `ranking` states.

use crate::cards::card::{lemma_rank_index, rank_at, Card};
use crate::eval::class_counts::lemma_count_above_bound;
use crate::eval::hand_class::{lemma_hand_class, lemma_key_class};
use crate::eval::lookup::{
    build_flush_table, build_pairs_table, build_unique5_table, is_flush, is_pairs_table,
    strictly_sorted_by_product,
    lemma_key_ranks_shape, lookup_pairs, prime_product, rank_count_of_mask, rank_mask_of,
};
use crate::eval::primes::{all_ranks, lemma_unique_factorisation};
use crate::eval::rank::HandValue;
use crate::eval::ranking::{
    class_of, counts_of, flush_entry, hand_ck, hand_ranks, hand_value, is_pair_entry, key_ck,
    key_of, key_product, key_ranks, mask_entry, pop13, rank_count, rank_mask, same_rank,
    same_suit, straight_index, unique_entry, valid_key,
};
use crate::eval::ranking_proofs::{
    lemma_multiset_to_counts, lemma_prime_prod_multiset, lemma_rank_count5,
};
use itertools::Itertools;
use vstd::prelude::*;

verus! {

/// Whether five cards can be evaluated: all of one suit, or not all of one
/// rank (five cards of one rank and several suits have no table entry).
pub open spec fn five_ok(h: Seq<Card>) -> bool {
    same_suit(h) || !same_rank(h)
}

/// A table entry is a Cactus Kev rank between 0 and 7462.
proof fn lemma_mask_entry_bound(straight_base: int, high_base: int, m: int)
    requires
        0 <= straight_base,
        0 <= high_base,
    ensures
        0 <= mask_entry(straight_base, high_base, m) <= if straight_base + 9 >= high_base + 1276 {
            straight_base + 9
        } else {
            high_base + 1276
        },
{
    if straight_index(m) < 0 && valid_key(0, m) {
        lemma_count_above_bound(0, m);
    }
}

/// The Cactus Kev rank of a paired key lies below 7044.
proof fn lemma_key_ck_bound(cat: int, key: int)
    requires
        1 <= cat <= 5,
        valid_key(cat, key),
    ensures
        11 <= key_ck(cat, key) < 7044,
{
    lemma_count_above_bound(cat, key);
}

/// The ranks of five cards are five rank indices, and no rank occurs five
/// times unless all five cards share it.
pub(crate) proof fn lemma_five_ranks(h: Seq<Card>)
    requires
        h.len() == 5,
    ensures
        hand_ranks(h).len() == 5,
        all_ranks(hand_ranks(h)),
        !same_rank(h) ==> forall|r: int| #[trigger] rank_count(hand_ranks(h), r) <= 4,
{
    let rs = hand_ranks(h);
    assert(rs =~= seq![
        h[0].rank.idx(),
        h[1].rank.idx(),
        h[2].rank.idx(),
        h[3].rank.idx(),
        h[4].rank.idx(),
    ]);
    assert forall|i: int| 0 <= i < rs.len() implies 0 <= #[trigger] rs[i] < 13 by {
        lemma_rank_index(h[i].rank, 0);
    }
    if !same_rank(h) {
        assert forall|r: int| #[trigger] rank_count(rs, r) <= 4 by {
            lemma_rank_count5(rs[0], rs[1], rs[2], rs[3], rs[4], r);
            if rank_count(rs, r) == 5 {
                lemma_rank_index(h[0].rank, 0);
                lemma_rank_index(h[1].rank, 0);
                lemma_rank_index(h[2].rank, 0);
                lemma_rank_index(h[3].rank, 0);
                lemma_rank_index(h[4].rank, 0);
                assert(rank_at(h[1].rank.idx()) == rank_at(h[0].rank.idx()));
                assert(rank_at(h[2].rank.idx()) == rank_at(h[0].rank.idx()));
                assert(rank_at(h[3].rank.idx()) == rank_at(h[0].rank.idx()));
                assert(rank_at(h[4].rank.idx()) == rank_at(h[0].rank.idx()));
            }
        }
    }
}

/// Five evaluable cards have a Cactus Kev rank between 0 and 7462, so a value
/// between 1 and 7463.
pub proof fn lemma_hand_ck_bound(h: Seq<Card>)
    requires
        h.len() == 5,
        five_ok(h),
    ensures
        0 <= hand_ck(h) <= 7462,
        1 <= hand_value(h) <= 7463,
{
    let rs = hand_ranks(h);
    let m = rank_mask(rs) as int;
    lemma_mask_entry_bound(1, 323, m);
    lemma_mask_entry_bound(1600, 6186, m);
    if !same_suit(h) && pop13(m) != 5 {
        lemma_five_ranks(h);
        lemma_hand_class(rs);
        lemma_key_ck_bound(class_of(counts_of(rs)), key_of(counts_of(rs)));
    }
}

/// Five cards of `h`, at the positions `c`.
pub open spec fn pick5(h: Seq<Card>, c: Seq<int>) -> Seq<Card> {
    seq![h[c[0]], h[c[1]], h[c[2]], h[c[3]], h[c[4]]]
}

/// Five increasing positions, the `k`-th in `lo[k]..hi[k]`.
pub open spec fn window(lo: Seq<usize>, hi: Seq<usize>) -> spec_fn(Seq<int>) -> bool {
    |c: Seq<int>|
        c.len() == 5 && (forall|i: int, j: int| 0 <= i < j < 5 ==> c[i] < c[j]) && (forall|k: int|
            0 <= k < 5 ==> lo[k] <= #[trigger] c[k] < hi[k])
}

/// Five increasing positions below `n`: the five-card combinations of `n`
/// cards.
pub open spec fn combo5(n: int) -> spec_fn(Seq<int>) -> bool {
    |c: Seq<int>| is_combo5(n, c)
}

/// Whether `c` is five increasing positions below `n`.
pub open spec fn is_combo5(n: int, c: Seq<int>) -> bool {
    c.len() == 5 && (forall|i: int, j: int| 0 <= i < j < 5 ==> c[i] < c[j]) && 0 <= c[0] && c[4] < n
}

/// Positions in the nine cards of an Omaha hand followed by its board: two
/// of the four hole cards and three of the five board cards.
pub open spec fn omaha_combo() -> spec_fn(Seq<int>) -> bool {
    |c: Seq<int>| combo5(9)(c) && c[1] < 4 && 4 <= c[2]
}

/// Every selected combination of `h` can be evaluated.
pub open spec fn fives_ok(h: Seq<Card>, sel: spec_fn(Seq<int>) -> bool) -> bool {
    forall|c: Seq<int>| sel(c) ==> five_ok(#[trigger] pick5(h, c))
}

/// `v` is the best value of the selected five-card combinations of `h`.
pub open spec fn best_over(h: Seq<Card>, sel: spec_fn(Seq<int>) -> bool, v: int) -> bool {
    &&& exists|c: Seq<int>| sel(c) && v == hand_value(#[trigger] pick5(h, c))
    &&& forall|c: Seq<int>| sel(c) ==> hand_value(#[trigger] pick5(h, c)) <= v
}

/// The best value of the selected five-card combinations of `h`.
pub open spec fn best_value(h: Seq<Card>, sel: spec_fn(Seq<int>) -> bool) -> int {
    choose|v: int| best_over(h, sel, v)
}

/// The best value is unique: it is the value that `best_value` names.
pub proof fn lemma_best_over_unique(h: Seq<Card>, sel: spec_fn(Seq<int>) -> bool, v: int)
    requires
        best_over(h, sel, v),
    ensures
        best_value(h, sel) == v,
{
    let w = best_value(h, sel);
    assert(best_over(h, sel, w));
    let cv = choose|c: Seq<int>| sel(c) && v == hand_value(#[trigger] pick5(h, c));
    let cw = choose|c: Seq<int>| sel(c) && w == hand_value(#[trigger] pick5(h, c));
    assert(hand_value(pick5(h, cv)) <= w);
    assert(hand_value(pick5(h, cw)) <= v);
}

/// The best value of evaluable combinations is a hand value, between 1 and
/// 7463.
pub proof fn lemma_best_over_bound(h: Seq<Card>, sel: spec_fn(Seq<int>) -> bool, v: int)
    requires
        best_over(h, sel, v),
        fives_ok(h, sel),
    ensures
        1 <= v <= 7463,
{
    let c = choose|c: Seq<int>| sel(c) && v == hand_value(#[trigger] pick5(h, c));
    lemma_hand_ck_bound(pick5(h, c));
}

/// `c` starts with the first `k` positions of `p`.
pub open spec fn has_prefix(c: Seq<int>, p: Seq<usize>, k: int) -> bool {
    forall|i: int| 0 <= i < k ==> c[i] == #[trigger] p[i] as int
}

/// Positions as mathematical integers.
pub open spec fn positions(v: Seq<usize>) -> Seq<int> {
    v.map_values(|x: usize| x as int)
}

/// Whether `c` lists `k` increasing positions below `n`.
pub open spec fn is_combo(n: int, k: int, c: Seq<int>) -> bool {
    &&& c.len() == k
    &&& forall|i: int, j: int| 0 <= i < j < k ==> c[i] < c[j]
    &&& forall|i: int| 0 <= i < k ==> 0 <= #[trigger] c[i] < n
}

/// `Itertools::combinations(k)` over the positions `0..n`: each item lists
/// `k` increasing positions below `n`, every such list is among the items,
/// and no list comes twice (the items come in increasing lexicographic
/// order).
#[verifier::external_body]
pub(crate) fn position_combinations(n: usize, k: usize) -> (r: Vec<Vec<usize>>)
    ensures
        forall|i: int| 0 <= i < r@.len() ==> is_combo(n as int, k as int, positions(#[trigger] r@[i]@)),
        forall|c: Seq<int>|
            #[trigger] is_combo(n as int, k as int, c) ==> exists|i: int|
                0 <= i < r@.len() && positions(#[trigger] r@[i]@) == c,
        forall|i: int, j: int| 0 <= i < j < r@.len() ==> r@[i]@ != r@[j]@,
{
    (0..n).combinations(k).collect()
}

/// Five positions in the sense of `is_combo` are a five-card combination.
proof fn lemma_combo_five(n: int, c: Seq<int>)
    ensures
        is_combo(n, 5, c) <==> is_combo5(n, c),
{
    if is_combo5(n, c) {
        assert(c[0] < c[1] && c[1] < c[2] && c[2] < c[3] && c[3] < c[4]);
    }
}

/// The three lookup tables of the evaluator.
pub struct HandEvaluator {
    unique5: Vec<u16>,
    flush: Vec<u16>,
    pairs: Vec<(u32, u16)>,
}

impl HandEvaluator {
    /// The tables hold the entries that `ranking` states.
    #[verifier::type_invariant]
    spec fn tables_hold(self) -> bool {
        &&& self.unique5@.len() == 8192
        &&& self.flush@.len() == 8192
        &&& forall|m: int| 0 <= m < 8192 ==> #[trigger] self.unique5@[m] as int == unique_entry(m)
        &&& forall|m: int| 0 <= m < 8192 ==> #[trigger] self.flush@[m] as int == flush_entry(m)
        &&& is_pairs_table(self.pairs@)
    }

    /// The table indexed by the rank mask of five different ranks.
    pub closed spec fn unique5_table(self) -> Seq<u16> {
        self.unique5@
    }

    /// The table indexed by the rank mask of a flush.
    pub closed spec fn flush_table(self) -> Seq<u16> {
        self.flush@
    }

    /// The `(prime product, rank)` entries of the hands with a repeated rank.
    pub closed spec fn pairs_table(self) -> Seq<(u32, u16)> {
        self.pairs@
    }

    /// Build the lookup tables: for each 13-bit rank mask the five-distinct-rank
    /// and the flush entries that `ranking` states, and the entries of the
    /// hands with a repeated rank, sorted by strictly increasing prime product.
    pub fn new() -> (e: Self)
        ensures
            e.unique5_table() == Seq::new(8192, |m: int| unique_entry(m) as u16),
            e.flush_table() == Seq::new(8192, |m: int| flush_entry(m) as u16),
            is_pairs_table(e.pairs_table()),
            strictly_sorted_by_product(e.pairs_table()),
    {
        let unique5 = build_unique5_table();
        let flush = build_flush_table();
        let pairs = build_pairs_table();
        proof {
            assert(unique5@ =~= Seq::new(8192, |m: int| unique_entry(m) as u16)) by {
                assert forall|m: int| 0 <= m < 8192 implies unique5@[m] == unique_entry(m) as u16 by {
                    assert(unique5@[m] as int == unique_entry(m));
                }
            }
            assert(flush@ =~= Seq::new(8192, |m: int| flush_entry(m) as u16)) by {
                assert forall|m: int| 0 <= m < 8192 implies flush@[m] == flush_entry(m) as u16 by {
                    assert(flush@[m] as int == flush_entry(m));
                }
            }
        }
        HandEvaluator { unique5, flush, pairs }
    }

    /// Evaluate exactly five cards: the value of the hand, higher is better.
    pub fn evaluate_five(&self, cards: &[Card; 5]) -> (v: HandValue)
        requires
            five_ok(cards@),
        ensures
            v.0 as int == hand_value(cards@),
    {
        proof {
            use_type_invariant(self);
            lemma_hand_ck_bound(cards@);
        }
        let mask = rank_mask_of(cards);
        if is_flush(cards) {
            return HandValue::from_cactus_kev(self.flush[mask as usize]);
        }
        if rank_count_of_mask(mask as u64) == 5 {
            return HandValue::from_cactus_kev(self.unique5[mask as usize]);
        }
        let product = prime_product(cards);
        let ghost rs = hand_ranks(cards@);
        let ghost cat = class_of(counts_of(rs));
        let ghost key = key_of(counts_of(rs));
        proof {
            lemma_five_ranks(cards@);
            lemma_hand_class(rs);
            lemma_prime_prod_multiset(key_ranks(cat, key), rs);
            let i = choose|i: int|
                0 <= i < self.pairs@.len() && self.pairs@[i].0 as int == key_product(cat, key)
                    && self.pairs@[i].1 as int == key_ck(cat, key);
            assert(self.pairs@[i].0 == product);
        }
        let ck = lookup_pairs(self.pairs.as_slice(), product);
        proof {
            let i = choose|i: int|
                0 <= i < self.pairs@.len() && self.pairs@[i].0 == product && self.pairs@[i].1
                    == ck;
            assert(is_pair_entry(self.pairs@[i]));
            let (c2, k2) = choose|c2: int, k2: int|
                1 <= c2 <= 5 && valid_key(c2, k2) && self.pairs@[i].0 as int == key_product(c2, k2)
                    && self.pairs@[i].1 as int == key_ck(c2, k2);
            lemma_key_ranks_shape(c2, k2);
            lemma_unique_factorisation(key_ranks(c2, k2), rs);
            lemma_multiset_to_counts(key_ranks(c2, k2), rs);
            lemma_key_class(c2, k2);
        }
        HandValue::from_cactus_kev(ck)
    }

    /// The best value, starting from `best`, of the window combinations of
    /// `h` that extend the first `k` positions of `p`.
    fn best_extending(
        &self,
        h: &[Card],
        lo: [usize; 5],
        hi: [usize; 5],
        p: [usize; 5],
        k: usize,
        best: u16,
    ) -> (b: u16)
        requires
            k <= 5,
            forall|i: int| 0 <= i < 5 ==> #[trigger] hi@[i] <= h@.len(),
            forall|i: int, j: int| 0 <= i < j < k ==> p@[i] < p@[j],
            forall|i: int| 0 <= i < k ==> lo@[i] <= #[trigger] p@[i] < hi@[i],
            fives_ok(h@, window(lo@, hi@)),
        ensures
            best <= b,
            forall|c: Seq<int>|
                window(lo@, hi@)(c) && has_prefix(c, p@, k as int) ==> hand_value(
                    #[trigger] pick5(h@, c),
                ) <= b,
            b == best || exists|c: Seq<int>|
                window(lo@, hi@)(c) && has_prefix(c, p@, k as int) && b == hand_value(
                    #[trigger] pick5(h@, c),
                ),
        decreases 5 - k,
    {
        if k == 5 {
            let ghost c = seq![p[0] as int, p[1] as int, p[2] as int, p[3] as int, p[4] as int];
            proof {
                assert(window(lo@, hi@)(c));
                assert forall|d: Seq<int>| window(lo@, hi@)(d) && has_prefix(d, p@, 5) implies d
                    == c by {
                    assert(d[0] == p@[0] as int && d[1] == p@[1] as int && d[2] == p@[2] as int
                        && d[3] == p@[3] as int && d[4] == p@[4] as int);
                    assert(d =~= c);
                }
                assert(pick5(h@, c) =~= seq![h@[p[0] as int], h@[p[1] as int], h@[p[2] as int], h@[p[3] as int], h@[p[4] as int]]);
                assert(five_ok(pick5(h@, c)));
            }
            let five = [h[p[0]], h[p[1]], h[p[2]], h[p[3]], h[p[4]]];
            proof {
                assert(five@ =~= pick5(h@, c));
            }
            let v = self.evaluate_five(&five);
            return if v.0 > best {
                v.0
            } else {
                best
            };
        }
        let start = if k == 0 {
            lo[0]
        } else if lo[k] > p[k - 1] {
            lo[k]
        } else {
            p[k - 1] + 1
        };
        let mut x = start;
        let mut b = best;
        while x < hi[k]
            invariant
                k < 5,
                start <= x,
                start >= lo@[k as int],
                k > 0 ==> start > p@[k - 1],
                forall|i: int| 0 <= i < 5 ==> #[trigger] hi@[i] <= h@.len(),
                forall|i: int, j: int| 0 <= i < j < k ==> p@[i] < p@[j],
                forall|i: int| 0 <= i < k ==> lo@[i] <= #[trigger] p@[i] < hi@[i],
                fives_ok(h@, window(lo@, hi@)),
                best <= b,
                forall|c: Seq<int>|
                    window(lo@, hi@)(c) && has_prefix(c, p@, k as int) && c[k as int] < x
                        ==> hand_value(#[trigger] pick5(h@, c)) <= b,
                b == best || exists|c: Seq<int>|
                    window(lo@, hi@)(c) && has_prefix(c, p@, k as int) && b == hand_value(
                        #[trigger] pick5(h@, c),
                    ),
            decreases hi@[k as int] - x,
        {
            let mut q = p;
            q[k] = x;
            let b2 = self.best_extending(h, lo, hi, q, k + 1, b);
            proof {
                assert forall|c: Seq<int>|
                    window(lo@, hi@)(c) && has_prefix(c, p@, k as int) && c[k as int] < x + 1
                        implies hand_value(#[trigger] pick5(h@, c)) <= b2 by {
                    if c[k as int] == x {
                        assert(has_prefix(c, q@, k + 1));
                    }
                }
                if b2 != b {
                    let c = choose|c: Seq<int>|
                        window(lo@, hi@)(c) && has_prefix(c, q@, k + 1) && b2 == hand_value(
                            #[trigger] pick5(h@, c),
                        );
                    assert forall|i: int| 0 <= i < k implies c[i] == #[trigger] p@[i] as int by {
                        assert(q@[i] == p@[i]);
                    }
                }
            }
            b = b2;
            x = x + 1;
        }
        proof {
            assert forall|c: Seq<int>|
                window(lo@, hi@)(c) && has_prefix(c, p@, k as int) implies hand_value(
                #[trigger] pick5(h@, c),
            ) <= b by {
                assert(c[k as int] < hi@[k as int]);
            }
        }
        b
    }

    /// The best value of the window combinations of `h`, when there is one.
    fn best_in_window(&self, h: &[Card], lo: [usize; 5], hi: [usize; 5]) -> (v: HandValue)
        requires
            forall|i: int| 0 <= i < 5 ==> #[trigger] hi@[i] <= h@.len(),
            fives_ok(h@, window(lo@, hi@)),
            exists|c: Seq<int>| #[trigger] window(lo@, hi@)(c),
        ensures
            best_over(h@, window(lo@, hi@), v.0 as int),
    {
        let b = self.best_extending(h, lo, hi, [0usize; 5], 0, 0);
        proof {
            let c0 = choose|c: Seq<int>| #[trigger] window(lo@, hi@)(c);
            assert(has_prefix(c0, [0usize; 5]@, 0));
            lemma_hand_ck_bound(pick5(h@, c0));
            assert forall|c: Seq<int>| window(lo@, hi@)(c) implies hand_value(#[trigger] pick5(h@, c))
                <= b by {
                assert(has_prefix(c, [0usize; 5]@, 0));
            }
        }
        HandValue(b)
    }

    /// The best five-card hand among seven cards: the highest value of its
    /// twenty-one five-card combinations.
    pub fn best_five_of_seven(&self, cards: &[Card; 7]) -> (v: HandValue)
        requires
            fives_ok(cards@, combo5(7)),
        ensures
            best_over(cards@, combo5(7), v.0 as int),
    {
        let lo = [0usize; 5];
        let hi = [7usize; 5];
        proof {
            lemma_window_all(lo@, hi@, 7);
        }
        self.best_in_window(cards.as_slice(), lo, hi)
    }

    /// The best Omaha hand: exactly two of the four hole cards with exactly
    /// three of the five board cards. Positions count the hole cards first,
    /// then the board.
    pub fn evaluate_omaha(&self, hole: &[Card; 4], board: &[Card; 5]) -> (v: HandValue)
        requires
            fives_ok(hole@ + board@, omaha_combo()),
        ensures
            best_over(hole@ + board@, omaha_combo(), v.0 as int),
    {
        let nine = [
            hole[0],
            hole[1],
            hole[2],
            hole[3],
            board[0],
            board[1],
            board[2],
            board[3],
            board[4],
        ];
        let lo = [0usize, 0, 4, 4, 4];
        let hi = [4usize, 4, 9, 9, 9];
        proof {
            assert(nine@ =~= hole@ + board@);
            assert(window(lo@, hi@) =~= omaha_combo()) by {
                assert forall|c: Seq<int>| #[trigger] window(lo@, hi@)(c) == omaha_combo()(c) by {
                    if omaha_combo()(c) {
                        assert(c[0] < c[1] && c[2] < c[3] && c[3] < c[4]);
                        assert(forall|k: int| 0 <= k < 5 ==> lo@[k] <= #[trigger] c[k] < hi@[k]);
                    }
                    if window(lo@, hi@)(c) {
                        assert(lo@[0] <= c[0] && c[4] < hi@[4] && c[1] < hi@[1] && lo@[2] <= c[2]);
                    }
                }
            }
            assert(window(lo@, hi@)(seq![0int, 1, 4, 5, 6]));
        }
        self.best_in_window(nine.as_slice(), lo, hi)
    }

    /// The best five-card hand among five or more cards, over every
    /// five-card combination.
    pub fn best_five_of_n(&self, cards: &[Card]) -> (v: HandValue)
        requires
            cards@.len() >= 5,
            fives_ok(cards@, combo5(cards@.len() as int)),
        ensures
            best_over(cards@, combo5(cards@.len() as int), v.0 as int),
    {
        let combos = position_combinations(cards.len(), 5);
        proof {
            assert forall|c: Seq<int>| #[trigger] is_combo(cards@.len() as int, 5, c) == is_combo5(
                cards@.len() as int,
                c,
            ) by {
                lemma_combo_five(cards@.len() as int, c);
            }
        }
        let ghost n = cards@.len() as int;
        let mut b: u16 = 0;
        let mut i: usize = 0;
        while i < combos.len()
            invariant
                n == cards@.len(),
                i <= combos@.len(),
                fives_ok(cards@, combo5(n)),
                forall|j: int| 0 <= j < combos@.len() ==> combo5(n)(positions(#[trigger] combos@[j]@)),
                forall|j: int|
                    0 <= j < i ==> hand_value(pick5(cards@, positions(#[trigger] combos@[j]@)))
                        <= b,
                b == 0 || exists|j: int|
                    0 <= j < i && b == hand_value(pick5(cards@, positions(#[trigger] combos@[j]@))),
            decreases combos@.len() - i,
        {
            let c = &combos[i];
            let ghost pc = positions(c@);
            proof {
                assert(combo5(n)(positions(combos@[i as int]@)));
                assert(pc.len() == 5);
                assert(c@.len() == 5);
                assert(pc[0] < pc[1] && pc[1] < pc[2] && pc[2] < pc[3] && pc[3] < pc[4]);
            }
            let five = [cards[c[0]], cards[c[1]], cards[c[2]], cards[c[3]], cards[c[4]]];
            proof {
                assert(five@ =~= pick5(cards@, pc));
            }
            let v = self.evaluate_five(&five);
            if v.0 > b {
                b = v.0;
            }
            i = i + 1;
        }
        proof {
            let c0 = seq![0int, 1, 2, 3, 4];
            assert(is_combo5(n, c0));
            assert(is_combo(n, 5, c0));
            let j0 = choose|j: int| 0 <= j < combos@.len() && positions(#[trigger] combos@[j]@) == c0;
            lemma_hand_ck_bound(pick5(cards@, c0));
            assert(hand_value(pick5(cards@, positions(combos@[j0]@))) <= b);
            let j = choose|j: int|
                0 <= j < i && b == hand_value(pick5(cards@, positions(#[trigger] combos@[j]@)));
            assert(combo5(n)(positions(combos@[j]@)));
            assert forall|c: Seq<int>| combo5(n)(c) implies hand_value(#[trigger] pick5(cards@, c))
                <= b by {
                assert(is_combo5(n, c));
                assert(is_combo(n, 5, c));
                let k = choose|k: int| 0 <= k < combos@.len() && positions(#[trigger] combos@[k]@)
                    == c;
            }
        }
        HandValue(b)
    }
}

/// The window with every position below `n` selects the combinations of
/// `n` cards.
proof fn lemma_window_all(lo: Seq<usize>, hi: Seq<usize>, n: int)
    requires
        lo.len() == 5,
        hi.len() == 5,
        forall|k: int| 0 <= k < 5 ==> #[trigger] lo[k] == 0,
        forall|k: int| 0 <= k < 5 ==> #[trigger] hi[k] == n,
        n >= 5,
    ensures
        window(lo, hi) == combo5(n),
        window(lo, hi)(seq![0int, 1, 2, 3, 4]),
{
    assert forall|c: Seq<int>| #[trigger] window(lo, hi)(c) == combo5(n)(c) by {
        if combo5(n)(c) {
            assert(c[0] < c[1] && c[1] < c[2] && c[2] < c[3] && c[3] < c[4]);
            assert(forall|k: int| 0 <= k < 5 ==> lo[k] <= #[trigger] c[k] < hi[k]);
        }
        if window(lo, hi)(c) {
            assert(lo[0] <= c[0] && c[4] < hi[4]);
        }
    }
    assert(window(lo, hi) =~= combo5(n));
}

/// On five cards, the best five-card hand is the hand itself: what
/// `best_five_of_n` gives for five cards is what `evaluate_five` gives.
pub proof fn lemma_best_of_five_is_hand(h: Seq<Card>)
    requires
        h.len() == 5,
    ensures
        best_over(h, combo5(5), hand_value(h)),
{
    let c0 = seq![0int, 1, 2, 3, 4];
    assert(combo5(5)(c0));
    assert(pick5(h, c0) =~= h);
    assert forall|c: Seq<int>| combo5(5)(c) implies hand_value(#[trigger] pick5(h, c)) <= hand_value(
        h,
    ) by {
        assert(is_combo5(5, c));
        assert(c[0] < c[1] && c[1] < c[2] && c[2] < c[3] && c[3] < c[4]);
        assert(c =~= c0);
    }
}

/// On seven cards, `best_five_of_n` and `best_five_of_seven` give the same
/// value: both are the best over the same combinations.
pub proof fn lemma_best_of_seven_agree(h: Seq<Card>, v_n: int, v_seven: int)
    requires
        h.len() == 7,
        best_over(h, combo5(h.len() as int), v_n),
        best_over(h, combo5(7), v_seven),
    ensures
        v_n == v_seven,
{
    lemma_best_over_unique(h, combo5(7), v_n);
    lemma_best_over_unique(h, combo5(7), v_seven);
}

/// Five pairwise different cards can be evaluated: five cards of one rank
/// would need five suits.
pub proof fn lemma_distinct_five_ok(h: Seq<Card>)
    requires
        h.len() == 5,
        forall|i: int, j: int| 0 <= i < j < 5 ==> h[i] != h[j],
    ensures
        five_ok(h),
{
    if same_rank(h) {
        assert(h[0] != h[1] && h[0] != h[2] && h[0] != h[3] && h[0] != h[4] && h[1] != h[2]
            && h[1] != h[3] && h[1] != h[4] && h[2] != h[3] && h[2] != h[4] && h[3] != h[4]);
        let s = seq![h[0].suit.idx(), h[1].suit.idx(), h[2].suit.idx(), h[3].suit.idx(), h[4].suit.idx()];
        assert(forall|i: int| 0 <= i < 5 ==> 0 <= #[trigger] s[i] < 4);
        assert(forall|i: int, j: int| 0 <= i < j < 5 ==> s[i] != s[j]);
    }
}

/// Every combination of pairwise different cards can be evaluated.
pub proof fn lemma_distinct_fives_ok(h: Seq<Card>, sel: spec_fn(Seq<int>) -> bool)
    requires
        forall|i: int, j: int| 0 <= i < j < h.len() ==> h[i] != h[j],
        forall|c: Seq<int>| #[trigger] sel(c) ==> is_combo5(h.len() as int, c),
    ensures
        fives_ok(h, sel),
{
    assert forall|c: Seq<int>| sel(c) implies five_ok(#[trigger] pick5(h, c)) by {
        assert(is_combo5(h.len() as int, c));
        assert(c[0] < c[1] && c[1] < c[2] && c[2] < c[3] && c[3] < c[4]);
        lemma_distinct_five_ok(pick5(h, c));
    }
}

/// Evaluate exactly five cards (higher is better).
///
/// This builds the lookup tables on each call; to evaluate many hands, build
/// a `HandEvaluator` once and call its method, which is a few table reads.
pub fn evaluate_five(cards: &[Card; 5]) -> (v: HandValue)
    requires
        five_ok(cards@),
    ensures
        v.0 as int == hand_value(cards@),
{
    HandEvaluator::new().evaluate_five(cards)
}

/// Evaluate the best five-card hand from any number of cards (at least five).
///
/// This builds the lookup tables on each call; to evaluate many hands, build
/// a `HandEvaluator` once and call its method, which is a few table reads.
pub fn best_five_of_n(cards: &[Card]) -> (v: HandValue)
    requires
        cards@.len() >= 5,
        fives_ok(cards@, combo5(cards@.len() as int)),
    ensures
        best_over(cards@, combo5(cards@.len() as int), v.0 as int),
{
    HandEvaluator::new().best_five_of_n(cards)
}

/// The best five-card hand of exactly seven cards (Texas Hold'em, Stud).
///
/// This builds the lookup tables on each call; to evaluate many hands, build
/// a `HandEvaluator` once and call its method, which is a few table reads.
pub fn best_five_of_seven(cards: &[Card; 7]) -> (v: HandValue)
    requires
        fives_ok(cards@, combo5(7)),
    ensures
        best_over(cards@, combo5(7), v.0 as int),
{
    HandEvaluator::new().best_five_of_seven(cards)
}

/// Evaluate an Omaha hand: exactly two of the four hole cards and exactly
/// three of the five board cards.
///
/// This builds the lookup tables on each call; to evaluate many hands, build
/// a `HandEvaluator` once and call its method, which is a few table reads.
pub fn evaluate_omaha(hole: &[Card; 4], board: &[Card; 5]) -> (v: HandValue)
    requires
        fives_ok(hole@ + board@, omaha_combo()),
    ensures
        best_over(hole@ + board@, omaha_combo(), v.0 as int),
{
    HandEvaluator::new().evaluate_omaha(hole, board)
}

} // verus!
