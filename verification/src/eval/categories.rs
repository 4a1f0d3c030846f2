//! The category of a five-card hand read directly off its cards, and the law
//! that the evaluator's value falls in that category.

use crate::bits::bit;
use crate::cards::card::Card;
use crate::eval::class_counts::{lemma_count_above_size, lemma_straights_have_five_ranks};
use crate::eval::evaluator::{lemma_distinct_five_ok, lemma_five_ranks};
use crate::eval::hand_class::lemma_hand_class;
use crate::eval::rank::{category_of_value, HandCategory};
use crate::eval::counting::{cnt, lemma_cnt_split};
use crate::eval::ranking::{
    class_of, count_above, counts_of, hand_ranks, hand_value, key_limit, key_of, mbit, num_with, pop13,
    rank_count, rank_mask, same_rank, same_suit, straight_index, valid_in, valid_key,
};
use crate::eval::ranking_proofs::{
    lemma_num_with_nonneg, lemma_present_count, lemma_rank_count_multiset, lemma_rank_mask_bits,
    lemma_sum_counts_len, lemma_sum_counts_weighted,
};
use vstd::prelude::*;

verus! {

/// The category of five cards by the rules of poker: a straight flush (the
/// ace-high one is the royal flush), four of a kind, a full house, a flush,
/// a straight, three of a kind, two pair, one pair, or a high card.
pub open spec fn shape_category(h: Seq<Card>) -> HandCategory {
    let rs = hand_ranks(h);
    let m = rank_mask(rs) as int;
    let cf = counts_of(rs);
    let flush = same_suit(h);
    let straight = straight_index(m) >= 0;
    if flush && straight {
        if straight_index(m) == 0 {
            HandCategory::RoyalFlush
        } else {
            HandCategory::StraightFlush
        }
    } else if num_with(cf, 4, 13) >= 1 {
        HandCategory::FourOfAKind
    } else if num_with(cf, 3, 13) >= 1 && num_with(cf, 2, 13) >= 1 {
        HandCategory::FullHouse
    } else if flush {
        HandCategory::Flush
    } else if straight {
        HandCategory::Straight
    } else if num_with(cf, 3, 13) >= 1 {
        HandCategory::ThreeOfAKind
    } else if num_with(cf, 2, 13) >= 2 {
        HandCategory::TwoPair
    } else if num_with(cf, 2, 13) == 1 {
        HandCategory::OnePair
    } else {
        HandCategory::HighCard
    }
}

/// The three categories of five cards of one suit.
pub open spec fn is_flush_category(c: HandCategory) -> bool {
    c == HandCategory::Flush || c == HandCategory::StraightFlush || c == HandCategory::RoyalFlush
}

/// No rank below `n` has multiplicity `c`: none is counted.
proof fn lemma_num_with_none(f: spec_fn(int) -> int, c: int, n: int)
    requires
        forall|r: int| 0 <= r < n ==> #[trigger] f(r) != c,
    ensures
        num_with(f, c, n) == 0,
    decreases n,
{
    if n > 0 {
        lemma_num_with_none(f, c, n - 1);
    }
}

/// Five different cards of one suit have five different ranks: no rank
/// occurs twice.
proof fn lemma_flush_ranks_distinct(h: Seq<Card>)
    requires
        h.len() == 5,
        forall|i: int, j: int| 0 <= i < j < 5 ==> h[i] != h[j],
        same_suit(h),
    ensures
        forall|r: int| #[trigger] rank_count(hand_ranks(h), r) <= 1,
{
    let rs = hand_ranks(h);
    assert(rs.no_duplicates()) by {
        assert forall|i: int, j: int| 0 <= i < rs.len() && 0 <= j < rs.len() && i != j implies rs[i]
            != rs[j] by {
            assert(h[i].suit == h[0].suit && h[j].suit == h[0].suit);
            if rs[i] == rs[j] {
                crate::cards::card::lemma_rank_index(h[i].rank, 0);
                crate::cards::card::lemma_rank_index(h[j].rank, 0);
                assert(h[i].rank == h[j].rank);
                if i < j {
                    assert(h[i] != h[j]);
                } else {
                    assert(h[j] != h[i]);
                }
            }
        }
    }
    rs.lemma_multiset_has_no_duplicates();
    assert forall|r: int| #[trigger] rank_count(rs, r) <= 1 by {
        lemma_rank_count_multiset(rs, r);
    }
}

/// The value the evaluator gives five different cards lies in the range of
/// the hand's category: every straight flush, four of a kind, ..., high card
/// is valued as one.
pub proof fn lemma_hand_category(h: Seq<Card>)
    requires
        h.len() == 5,
        forall|i: int, j: int| 0 <= i < j < 5 ==> h[i] != h[j],
    ensures
        category_of_value(hand_value(h)) == shape_category(h),
        1 <= hand_value(h) <= 7462,
        same_suit(h) ==> pop13(rank_mask(hand_ranks(h)) as int) == 5,
{
    let rs = hand_ranks(h);
    let m = rank_mask(rs) as int;
    let cf = counts_of(rs);
    lemma_distinct_five_ok(h);
    if same_suit(h) && same_rank(h) {
        assert(h[0] == h[1]);
    }
    lemma_five_ranks(h);
    lemma_rank_mask_bits(rs);
    lemma_sum_counts_len(rs);
    assert forall|r: int| 0 <= r < 13 implies 0 <= #[trigger] cf(r) <= 4 by {
        crate::eval::ranking_proofs::lemma_rank_count_nonneg(rs, r);
    }
    lemma_sum_counts_weighted(cf, 13);
    lemma_present_count(cf, m, 13);
    lemma_num_with_nonneg(cf, 1, 13);
    lemma_num_with_nonneg(cf, 2, 13);
    lemma_num_with_nonneg(cf, 3, 13);
    lemma_num_with_nonneg(cf, 4, 13);
    lemma_straights_have_five_ranks();
    if same_suit(h) {
        lemma_flush_ranks_distinct(h);
        lemma_num_with_none(cf, 2, 13);
        lemma_num_with_none(cf, 3, 13);
        lemma_num_with_none(cf, 4, 13);
        assert(pop13(m) == 5);
        if straight_index(m) < 0 {
            assert(valid_key(0, m));
            lemma_count_above_size(0, m);
        }
    } else if pop13(m) == 5 {
        if straight_index(m) < 0 {
            assert(valid_key(0, m));
            lemma_count_above_size(0, m);
        }
    } else {
        lemma_hand_class(rs);
        let cat = class_of(cf);
        lemma_count_above_size(cat, key_of(cf));
        assert(straight_index(m) < 0);
    }
}

/// A hand of a higher category beats any hand of a lower one: four of a
/// kind beats every full house, a flush every straight, and so on.
pub proof fn lemma_category_orders_hands(h1: Seq<Card>, h2: Seq<Card>)
    requires
        h1.len() == 5,
        h2.len() == 5,
        forall|i: int, j: int| 0 <= i < j < 5 ==> h1[i] != h1[j],
        forall|i: int, j: int| 0 <= i < j < 5 ==> h2[i] != h2[j],
        shape_category(h1).idx() < shape_category(h2).idx(),
    ensures
        hand_value(h1) < hand_value(h2),
{
    lemma_hand_category(h1);
    lemma_hand_category(h2);
    crate::eval::rank::lemma_category_monotone(hand_value(h1), hand_value(h2));
}

/// Whether five different cards share a suit decides whether they make a
/// flush: they share one exactly when their category, read off the cards or
/// off the evaluator's value, is a flush, a straight flush or a royal flush.
pub proof fn lemma_flush_iff_flush_category(h: Seq<Card>)
    requires
        h.len() == 5,
        forall|i: int, j: int| 0 <= i < j < 5 ==> h[i] != h[j],
    ensures
        same_suit(h) <==> is_flush_category(shape_category(h)),
        same_suit(h) <==> is_flush_category(category_of_value(hand_value(h))),
{
    lemma_hand_category(h);
    if same_suit(h) {
        let cf = counts_of(hand_ranks(h));
        lemma_flush_ranks_distinct(h);
        lemma_num_with_none(cf, 3, 13);
        lemma_num_with_none(cf, 4, 13);
    }
}

/// Of two valid keys of one class, the higher has fewer hands of the class
/// above it.
proof fn lemma_higher_key_fewer_above(cat: int, k1: int, k2: int)
    requires
        0 <= cat <= 5,
        valid_key(cat, k1),
        valid_key(cat, k2),
        k1 < k2,
    ensures
        count_above(cat, k2) < count_above(cat, k1),
{
    let l = key_limit(cat);
    lemma_cnt_split(valid_in(cat), k1 + 1, k2, l);
    assert(valid_in(cat)(k2));
    assert(cnt(valid_in(cat), k2, l) == 1 + cnt(valid_in(cat), k2 + 1, l));
}

/// Within a class of paired hands (four of a kind, full house, three of a
/// kind, two pair, one pair) the hand with the higher key wins. The key
/// reads the ranks that decide such hands in the order poker compares them:
/// the rank of the largest group first, then the rest.
pub proof fn lemma_paired_key_orders_hands(h1: Seq<Card>, h2: Seq<Card>)
    requires
        h1.len() == 5,
        h2.len() == 5,
        forall|i: int, j: int| 0 <= i < j < 5 ==> h1[i] != h1[j],
        forall|i: int, j: int| 0 <= i < j < 5 ==> h2[i] != h2[j],
        pop13(rank_mask(hand_ranks(h1)) as int) != 5,
        pop13(rank_mask(hand_ranks(h2)) as int) != 5,
        class_of(counts_of(hand_ranks(h1))) == class_of(counts_of(hand_ranks(h2))),
        key_of(counts_of(hand_ranks(h1))) < key_of(counts_of(hand_ranks(h2))),
    ensures
        hand_value(h1) < hand_value(h2),
{
    lemma_hand_category(h1);
    lemma_hand_category(h2);
    lemma_distinct_five_ok(h1);
    lemma_distinct_five_ok(h2);
    lemma_five_ranks(h1);
    lemma_five_ranks(h2);
    if same_rank(h1) {
        assert(h1[0] == h1[1]);
    }
    if same_rank(h2) {
        assert(h2[0] == h2[1]);
    }
    lemma_hand_class(hand_ranks(h1));
    lemma_hand_class(hand_ranks(h2));
    lemma_higher_key_fewer_above(
        class_of(counts_of(hand_ranks(h1))),
        key_of(counts_of(hand_ranks(h1))),
        key_of(counts_of(hand_ranks(h2))),
    );
}

/// The highest rank in which two rank masks differ is in `m2`.
pub open spec fn top_difference_in(m1: int, m2: int) -> bool {
    exists|r: int|
        0 <= r < 13 && mbit(m2, r) && !mbit(m1, r) && (forall|s: int|
            r < s < 13 ==> #[trigger] mbit(m1, s) == mbit(m2, s))
}

/// Rank masks compare as their highest differing rank does.
proof fn lemma_mask_compare(m1: u64, m2: u64)
    requires
        m1 < 8192,
        m2 < 8192,
        top_difference_in(m1 as int, m2 as int),
    ensures
        m1 < m2,
{
    let r = choose|r: int|
        0 <= r < 13 && mbit(m2 as int, r) && !mbit(m1 as int, r) && (forall|s: int|
            r < s < 13 ==> #[trigger] mbit(m1 as int, s) == mbit(m2 as int, s));
    let t = (r + 1) as u64;
    let a = m1 >> t;
    let b = m2 >> t;
    assert(a < 8192 && b < 8192) by (bit_vector)
        requires
            m1 < 8192,
            m2 < 8192,
            a == m1 >> t,
            b == m2 >> t,
    ;
    assert forall|q: u64| q < 13 implies #[trigger] bit(a, q) == bit(b, q) by {
        if (q as int) + (t as int) < 13 {
            assert(mbit(m1 as int, q + t) == mbit(m2 as int, q + t));
            let u = (q + t) as u64;
            assert(bit(a, q) == bit(m1, u) && bit(b, q) == bit(m2, u)) by (bit_vector)
                requires
                    a == m1 >> t,
                    b == m2 >> t,
                    u == q + t,
                    t <= 13,
                    q < 13,
            ;
        } else {
            assert(!bit(a, q) && !bit(b, q)) by (bit_vector)
                requires
                    a == m1 >> t,
                    b == m2 >> t,
                    q + t >= 13,
                    m1 < 8192,
                    m2 < 8192,
                    q < 13,
                    t <= 13,
            ;
        }
    }
    crate::eval::order::lemma_mask_eq(a, b);
    let rr = r as u64;
    assert(bit(m2, rr) && !bit(m1, rr));
    assert(m1 < m2) by (bit_vector)
        requires
            (m1 >> t) == (m2 >> t),
            t == rr + 1,
            rr < 13,
            (m2 >> rr) & 1 == 1,
            (m1 >> rr) & 1 != 1,
    ;
}

/// Of two hands of five different ranks that are no straights, both
/// flushes or both not, the one that holds the highest rank where they
/// differ wins, as poker compares them card by card from the top.
pub proof fn lemma_high_mask_orders_hands(h1: Seq<Card>, h2: Seq<Card>)
    requires
        h1.len() == 5,
        h2.len() == 5,
        pop13(rank_mask(hand_ranks(h1)) as int) == 5,
        pop13(rank_mask(hand_ranks(h2)) as int) == 5,
        straight_index(rank_mask(hand_ranks(h1)) as int) < 0,
        straight_index(rank_mask(hand_ranks(h2)) as int) < 0,
        same_suit(h1) == same_suit(h2),
        top_difference_in(rank_mask(hand_ranks(h1)) as int, rank_mask(hand_ranks(h2)) as int),
    ensures
        hand_value(h1) < hand_value(h2),
{
    lemma_five_ranks(h1);
    lemma_five_ranks(h2);
    lemma_rank_mask_bits(hand_ranks(h1));
    lemma_rank_mask_bits(hand_ranks(h2));
    lemma_mask_compare(rank_mask(hand_ranks(h1)) as u64, rank_mask(hand_ranks(h2)) as u64);
    lemma_higher_key_fewer_above(
        0,
        rank_mask(hand_ranks(h1)) as int,
        rank_mask(hand_ranks(h2)) as int,
    );
}

/// Of two straights, both flushes or both not, the one with the higher top
/// card wins (the wheel, five high, is the lowest).
pub proof fn lemma_straights_ordered(h1: Seq<Card>, h2: Seq<Card>)
    requires
        h1.len() == 5,
        h2.len() == 5,
        straight_index(rank_mask(hand_ranks(h1)) as int) >= 0,
        straight_index(rank_mask(hand_ranks(h2)) as int) >= 0,
        same_suit(h1) == same_suit(h2),
        straight_index(rank_mask(hand_ranks(h2)) as int) < straight_index(
            rank_mask(hand_ranks(h1)) as int,
        ),
    ensures
        hand_value(h1) < hand_value(h2),
{
    lemma_straights_have_five_ranks();
}

} // verus!
