//! The value of a five-card hand does not depend on the order of its cards
//! nor on the names of their suits.

use crate::bits::bit;
use crate::cards::card::{Card, Suit};
use crate::eval::ranking::{hand_ranks, hand_value, mbit, rank_mask, same_suit};
use crate::eval::ranking_proofs::{lemma_multiset_to_counts, lemma_rank_mask_bits};
use crate::eval::ranking::counts_of;
use vstd::prelude::*;

verus! {

/// Mapping the items of two sequences with the same items gives sequences
/// with the same items.
pub(crate) proof fn lemma_map_multiset<A, B>(s1: Seq<A>, s2: Seq<A>, f: spec_fn(A) -> B)
    requires
        s1.to_multiset() == s2.to_multiset(),
    ensures
        s1.map_values(f).to_multiset() == s2.map_values(f).to_multiset(),
    decreases s1.len(),
{
    broadcast use vstd::seq_lib::group_to_multiset_ensures;
    broadcast use vstd::multiset::group_multiset_axioms;

    if s1.len() == 0 {
        vstd::seq_lib::to_multiset_len(s1);
        vstd::seq_lib::to_multiset_len(s2);
        assert(s2.len() == 0);
        assert(s1.map_values(f) =~= Seq::<B>::empty());
        assert(s2.map_values(f) =~= Seq::<B>::empty());
    } else {
        let x = s1.last();
        let t1 = s1.drop_last();
        assert(s1 =~= t1.push(x));
        assert(s2.to_multiset().count(x) > 0);
        assert(s2.contains(x));
        let j = choose|j: int| 0 <= j < s2.len() && s2[j] == x;
        let t2 = s2.remove(j);
        assert(t1.to_multiset() =~= s1.to_multiset().remove(x));
        assert(t2.to_multiset() =~= s2.to_multiset().remove(x));
        lemma_map_multiset(t1, t2, f);
        let m2 = s2.map_values(f);
        assert(s1.map_values(f) =~= t1.map_values(f).push(f(x)));
        assert(t2.map_values(f) =~= m2.remove(j));
        assert(m2[j] == f(x));
        assert(m2.remove(j).to_multiset() =~= m2.to_multiset().remove(f(x)));
        assert(m2.to_multiset().count(f(x)) > 0) by {
            assert(m2.contains(f(x)));
        }
        assert(m2.to_multiset() =~= m2.to_multiset().remove(f(x)).insert(f(x)));
    }
}

/// Two words below 8192 with the same thirteen low bits are equal.
pub(crate) proof fn lemma_mask_eq(a: u64, b: u64)
    requires
        a < 8192,
        b < 8192,
        forall|r: u64| r < 13 ==> #[trigger] bit(a, r) == bit(b, r),
    ensures
        a == b,
{
    assert(bit(a, 0) == bit(b, 0) && bit(a, 1) == bit(b, 1) && bit(a, 2) == bit(b, 2) && bit(a, 3)
        == bit(b, 3) && bit(a, 4) == bit(b, 4) && bit(a, 5) == bit(b, 5) && bit(a, 6) == bit(b, 6)
        && bit(a, 7) == bit(b, 7) && bit(a, 8) == bit(b, 8) && bit(a, 9) == bit(b, 9) && bit(a, 10)
        == bit(b, 10) && bit(a, 11) == bit(b, 11) && bit(a, 12) == bit(b, 12));
    assert(a == b) by (bit_vector)
        requires
            a < 8192,
            b < 8192,
            ((a >> 0u64) & 1 == 1) == ((b >> 0u64) & 1 == 1),
            ((a >> 1u64) & 1 == 1) == ((b >> 1u64) & 1 == 1),
            ((a >> 2u64) & 1 == 1) == ((b >> 2u64) & 1 == 1),
            ((a >> 3u64) & 1 == 1) == ((b >> 3u64) & 1 == 1),
            ((a >> 4u64) & 1 == 1) == ((b >> 4u64) & 1 == 1),
            ((a >> 5u64) & 1 == 1) == ((b >> 5u64) & 1 == 1),
            ((a >> 6u64) & 1 == 1) == ((b >> 6u64) & 1 == 1),
            ((a >> 7u64) & 1 == 1) == ((b >> 7u64) & 1 == 1),
            ((a >> 8u64) & 1 == 1) == ((b >> 8u64) & 1 == 1),
            ((a >> 9u64) & 1 == 1) == ((b >> 9u64) & 1 == 1),
            ((a >> 10u64) & 1 == 1) == ((b >> 10u64) & 1 == 1),
            ((a >> 11u64) & 1 == 1) == ((b >> 11u64) & 1 == 1),
            ((a >> 12u64) & 1 == 1) == ((b >> 12u64) & 1 == 1),
    ;
}

/// Whether five cards share a suit does not depend on their order.
proof fn lemma_same_suit_order(h1: Seq<Card>, h2: Seq<Card>)
    requires
        h1.len() == 5,
        h2.len() == 5,
        h1.to_multiset() == h2.to_multiset(),
        same_suit(h1),
    ensures
        same_suit(h2),
{
    broadcast use vstd::seq_lib::group_to_multiset_ensures;

    assert forall|i: int| 0 <= i < 5 implies #[trigger] h2[i].suit == h1[0].suit by {
        assert(h2.contains(h2[i]));
        assert(h1.to_multiset().count(h2[i]) > 0);
        assert(h1.contains(h2[i]));
        let k = choose|k: int| 0 <= k < h1.len() && h1[k] == h2[i];
        assert(h1[k].suit == h1[0].suit);
    }
}

/// Suits never break a tie: five cards with the same ranks, counted with
/// their multiplicities, have the same value when both or neither are of
/// one suit.
pub proof fn lemma_hand_value_by_ranks(h1: Seq<Card>, h2: Seq<Card>)
    requires
        h1.len() == 5,
        h2.len() == 5,
        hand_ranks(h1).to_multiset() == hand_ranks(h2).to_multiset(),
        same_suit(h1) == same_suit(h2),
    ensures
        hand_value(h1) == hand_value(h2),
{
    let rs1 = hand_ranks(h1);
    let rs2 = hand_ranks(h2);
    lemma_multiset_to_counts(rs1, rs2);
    assert(crate::eval::primes::all_ranks(rs1)) by {
        assert forall|i: int| 0 <= i < rs1.len() implies 0 <= #[trigger] rs1[i] < 13 by {
            crate::cards::card::lemma_rank_index(h1[i].rank, 0);
        }
    }
    assert(crate::eval::primes::all_ranks(rs2)) by {
        assert forall|i: int| 0 <= i < rs2.len() implies 0 <= #[trigger] rs2[i] < 13 by {
            crate::cards::card::lemma_rank_index(h2[i].rank, 0);
        }
    }
    lemma_rank_mask_bits(rs1);
    lemma_rank_mask_bits(rs2);
    let m1 = rank_mask(rs1) as u64;
    let m2 = rank_mask(rs2) as u64;
    assert forall|r: u64| r < 13 implies #[trigger] bit(m1, r) == bit(m2, r) by {
        assert(mbit(rank_mask(rs1) as int, r as int) == mbit(rank_mask(rs2) as int, r as int)) by {
            assert(counts_of(rs1)(r as int) == counts_of(rs2)(r as int));
        }
    }
    lemma_mask_eq(m1, m2);
}

/// The value of five cards does not depend on their order: cards with the
/// same items in any order have the same value.
pub proof fn lemma_hand_value_order(h1: Seq<Card>, h2: Seq<Card>)
    requires
        h1.len() == 5,
        h1.to_multiset() == h2.to_multiset(),
    ensures
        hand_value(h1) == hand_value(h2),
{
    broadcast use vstd::seq_lib::group_to_multiset_ensures;

    vstd::seq_lib::to_multiset_len(h1);
    vstd::seq_lib::to_multiset_len(h2);
    assert(h2.len() == 5);
    let f = |c: Card| c.rank.idx();
    lemma_map_multiset(h1, h2, f);
    assert(hand_ranks(h1) == h1.map_values(f));
    assert(hand_ranks(h2) == h2.map_values(f));
    if same_suit(h1) {
        lemma_same_suit_order(h1, h2);
    }
    if same_suit(h2) {
        lemma_same_suit_order(h2, h1);
    }
    lemma_hand_value_by_ranks(h1, h2);
}

/// The cards of `h` with each suit renamed by `f`; ranks stay.
pub open spec fn rename_suits(h: Seq<Card>, f: spec_fn(Suit) -> Suit) -> Seq<Card> {
    h.map_values(|c: Card| Card { rank: c.rank, suit: f(c.suit) })
}

/// The value of five cards does not change when their suits are renamed one
/// for one: no suit outranks another.
pub proof fn lemma_hand_value_suit_rename(h: Seq<Card>, f: spec_fn(Suit) -> Suit)
    requires
        h.len() == 5,
        forall|a: Suit, b: Suit| #[trigger] f(a) == #[trigger] f(b) ==> a == b,
    ensures
        hand_value(rename_suits(h, f)) == hand_value(h),
{
    let g = rename_suits(h, f);
    assert(hand_ranks(g) =~= hand_ranks(h));
    assert(same_suit(g) == same_suit(h)) by {
        assert(g[0].suit == f(h[0].suit));
        assert(g[1].suit == f(h[1].suit));
        assert(g[2].suit == f(h[2].suit));
        assert(g[3].suit == f(h[3].suit));
        assert(g[4].suit == f(h[4].suit));
    }
}

} // verus!
