//! The class and key of a paired hand, both ways: the ranks stored for a
//! valid key have that class and key again, and the class and key read off a
//! paired hand's multiplicities are valid and stand for the same ranks.

use crate::eval::counting::pow2i;
use crate::eval::primes::all_ranks;
use crate::eval::ranking::{
    class_of, counts_of, key_of, key_ranks, mask_seq, mask_with, mbit, num_with, pop13,
    rank_count, rank_mask, top_with, valid_key,
};
use crate::eval::ranking_proofs::{
    lemma_counts_to_multiset, lemma_mask_with_bits, lemma_mask_with_eq, lemma_num_with_mask,
    lemma_num_with_none, lemma_num_with_nonneg, lemma_num_with_one, lemma_num_with_zero,
    lemma_present_count, lemma_rank_count5, lemma_rank_count_concat, lemma_rank_count_mask_seq,
    lemma_rank_count_nonneg, lemma_rank_count_short, lemma_rank_mask_bits, lemma_single_rank,
    lemma_sum_counts_len, lemma_sum_counts_weighted,
};
use vstd::prelude::*;

verus! {

/// `2^13` is the size of a rank-mask table.
proof fn lemma_pow2_13()
    ensures
        pow2i(13) == 8192,
{
    reveal_with_fuel(pow2i, 14);
}

// ---------------------------------------------------------------------------
// From a key to its ranks and back.

/// Four of a kind and full house: the group rank `a` and the other rank `b`.
proof fn lemma_key_class_groups(cat: int, key: int)
    requires
        cat == 1 || cat == 2,
        valid_key(cat, key),
    ensures
        class_of(counts_of(key_ranks(cat, key))) == cat,
        key_of(counts_of(key_ranks(cat, key))) == key,
{
    let a = key / 13;
    let b = key % 13;
    let f = counts_of(key_ranks(cat, key));
    if cat == 1 {
        assert forall|r: int| #[trigger] f(r) == (if r == a {
            4int
        } else if r == b {
            1int
        } else {
            0int
        }) by {
            lemma_rank_count5(a, a, a, a, b, r);
        }
        lemma_single_rank(f, 4, a, 13);
        lemma_single_rank(f, 1, b, 13);
    } else {
        assert forall|r: int| #[trigger] f(r) == (if r == a {
            3int
        } else if r == b {
            2int
        } else {
            0int
        }) by {
            lemma_rank_count5(a, a, a, b, b, r);
        }
        lemma_num_with_none(f, 4, 13);
        lemma_single_rank(f, 3, a, 13);
        lemma_single_rank(f, 2, b, 13);
    }
}

/// Three of a kind and one pair: the group rank and the mask of single
/// kickers.
proof fn lemma_key_class_kickers(cat: int, key: int)
    requires
        cat == 3 || cat == 5,
        valid_key(cat, key),
    ensures
        class_of(counts_of(key_ranks(cat, key))) == cat,
        key_of(counts_of(key_ranks(cat, key))) == key,
{
    let t = key / 8192;
    let m = key % 8192;
    let f = counts_of(key_ranks(cat, key));
    let g: int = if cat == 3 {
        3
    } else {
        2
    };
    assert forall|r: int| #[trigger] f(r) == (if r == t {
        g
    } else if 0 <= r < 13 && mbit(m, r) {
        1int
    } else {
        0int
    }) by {
        lemma_rank_count_mask_seq(m, 13, r);
        if cat == 3 {
            lemma_rank_count_concat(seq![t, t, t], mask_seq(m, 13), r);
            lemma_rank_count_short(t, t, t, r);
        } else {
            lemma_rank_count_concat(seq![t, t], mask_seq(m, 13), r);
            lemma_rank_count_short(t, t, t, r);
        }
    }
    lemma_num_with_none(f, 4, 13);
    lemma_single_rank(f, g, t, 13);
    lemma_pow2_13();
    lemma_mask_with_eq(f, 1, m, 13);
    if cat == 3 {
        lemma_num_with_none(f, 2, 13);
    } else {
        lemma_num_with_none(f, 3, 13);
    }
}

/// Two pair: the mask of the pairs and the kicker.
proof fn lemma_key_class_two_pair(key: int)
    requires
        valid_key(4, key),
    ensures
        class_of(counts_of(key_ranks(4, key))) == 4,
        key_of(counts_of(key_ranks(4, key))) == key,
{
    let pm = key / 13;
    let k = key % 13;
    let ms = mask_seq(pm, 13);
    let f = counts_of(key_ranks(4, key));
    assert forall|r: int| #[trigger] f(r) == (if 0 <= r < 13 && mbit(pm, r) {
        2int
    } else if r == k {
        1int
    } else {
        0int
    }) by {
        lemma_rank_count_mask_seq(pm, 13, r);
        lemma_rank_count_concat(ms + ms, seq![k], r);
        lemma_rank_count_concat(ms, ms, r);
        lemma_rank_count_short(k, k, k, r);
    }
    lemma_num_with_none(f, 4, 13);
    lemma_num_with_none(f, 3, 13);
    lemma_num_with_mask(f, 2, pm, 13);
    lemma_pow2_13();
    lemma_mask_with_eq(f, 2, pm, 13);
    lemma_single_rank(f, 1, k, 13);
}

/// The ranks stored for a valid paired key have that class and key.
pub proof fn lemma_key_class(cat: int, key: int)
    requires
        1 <= cat <= 5,
        valid_key(cat, key),
    ensures
        class_of(counts_of(key_ranks(cat, key))) == cat,
        key_of(counts_of(key_ranks(cat, key))) == key,
{
    if cat == 1 || cat == 2 {
        lemma_key_class_groups(cat, key);
    } else if cat == 4 {
        lemma_key_class_two_pair(key);
    } else {
        lemma_key_class_kickers(cat, key);
    }
}

// ---------------------------------------------------------------------------
// From a hand's multiplicities to its class and key.

/// Multiplicities between 0 and 4 on the ranks, and none off them.
pub open spec fn paired_shape(f: spec_fn(int) -> int) -> bool {
    &&& forall|r: int| 0 <= r < 13 ==> 0 <= #[trigger] f(r) <= 4
    &&& forall|r: int| (r < 0 || 13 <= r) ==> #[trigger] f(r) == 0
}

/// The counts of ranks with each multiplicity.
pub open spec fn has_counts(f: spec_fn(int) -> int, n1: int, n2: int, n3: int, n4: int) -> bool {
    &&& num_with(f, 1, 13) == n1
    &&& num_with(f, 2, 13) == n2
    &&& num_with(f, 3, 13) == n3
    &&& num_with(f, 4, 13) == n4
}

/// Four of a kind and full house read off the multiplicities.
proof fn lemma_hand_groups(f: spec_fn(int) -> int, cat: int)
    requires
        paired_shape(f),
        cat == 1 ==> has_counts(f, 1, 0, 0, 1),
        cat == 2 ==> has_counts(f, 0, 1, 1, 0),
        cat == 1 || cat == 2,
    ensures
        class_of(f) == cat,
        valid_key(cat, key_of(f)),
        forall|r: int| #[trigger] rank_count(key_ranks(cat, key_of(f)), r) == f(r),
{
    let (g, h, z1, z2) = if cat == 1 {
        (4int, 1int, 2int, 3int)
    } else {
        (3int, 2int, 1int, 4int)
    };
    lemma_num_with_one(f, g, 13);
    lemma_num_with_one(f, h, 13);
    lemma_num_with_zero(f, z1, 13);
    lemma_num_with_zero(f, z2, 13);
    let a = top_with(f, g, 13);
    let b = top_with(f, h, 13);
    let key = key_of(f);
    assert(key == a * 13 + b);
    assert(key / 13 == a && key % 13 == b);
    assert forall|r: int| #[trigger] rank_count(key_ranks(cat, key), r) == f(r) by {
        if cat == 1 {
            lemma_rank_count5(a, a, a, a, b, r);
        } else {
            lemma_rank_count5(a, a, a, b, b, r);
        }
        if 0 <= r < 13 && r != a && r != b {
            assert(f(r) != g && f(r) != h && f(r) != z1 && f(r) != z2);
        }
    }
}

/// Three of a kind and one pair read off the multiplicities.
proof fn lemma_hand_kickers(f: spec_fn(int) -> int, cat: int)
    requires
        paired_shape(f),
        cat == 3 ==> has_counts(f, 2, 0, 1, 0),
        cat == 5 ==> has_counts(f, 3, 1, 0, 0),
        cat == 3 || cat == 5,
    ensures
        class_of(f) == cat,
        valid_key(cat, key_of(f)),
        forall|r: int| #[trigger] rank_count(key_ranks(cat, key_of(f)), r) == f(r),
{
    let (g, z) = if cat == 3 {
        (3int, 2int)
    } else {
        (2int, 3int)
    };
    lemma_num_with_one(f, g, 13);
    lemma_num_with_zero(f, z, 13);
    lemma_num_with_zero(f, 4, 13);
    let t = top_with(f, g, 13);
    let m = mask_with(f, 1, 13);
    lemma_pow2_13();
    lemma_mask_with_bits(f, 1, 13);
    lemma_num_with_mask(f, 1, m, 13);
    let key = key_of(f);
    assert(key == t * 8192 + m);
    assert(key / 8192 == t && key % 8192 == m);
    assert forall|r: int| #[trigger] rank_count(key_ranks(cat, key), r) == f(r) by {
        lemma_rank_count_mask_seq(m, 13, r);
        if cat == 3 {
            lemma_rank_count_concat(seq![t, t, t], mask_seq(m, 13), r);
        } else {
            lemma_rank_count_concat(seq![t, t], mask_seq(m, 13), r);
        }
        lemma_rank_count_short(t, t, t, r);
        if 0 <= r < 13 && r != t {
            assert(f(r) != g && f(r) != z && f(r) != 4);
            assert(mbit(m, r) == (f(r) == 1));
        }
    }
}

/// Two pair read off the multiplicities.
proof fn lemma_hand_two_pair(f: spec_fn(int) -> int)
    requires
        paired_shape(f),
        has_counts(f, 1, 2, 0, 0),
    ensures
        class_of(f) == 4,
        valid_key(4, key_of(f)),
        forall|r: int| #[trigger] rank_count(key_ranks(4, key_of(f)), r) == f(r),
{
    lemma_num_with_one(f, 1, 13);
    lemma_num_with_zero(f, 3, 13);
    lemma_num_with_zero(f, 4, 13);
    let k = top_with(f, 1, 13);
    let pm = mask_with(f, 2, 13);
    lemma_pow2_13();
    lemma_mask_with_bits(f, 2, 13);
    lemma_num_with_mask(f, 2, pm, 13);
    let key = key_of(f);
    assert(key == pm * 13 + k);
    assert(key / 13 == pm && key % 13 == k);
    let ms = mask_seq(pm, 13);
    assert forall|r: int| #[trigger] rank_count(key_ranks(4, key), r) == f(r) by {
        lemma_rank_count_mask_seq(pm, 13, r);
        lemma_rank_count_concat(ms + ms, seq![k], r);
        lemma_rank_count_concat(ms, ms, r);
        lemma_rank_count_short(k, k, k, r);
        if 0 <= r < 13 && r != k {
            assert(f(r) != 1 && f(r) != 3 && f(r) != 4);
            assert(mbit(pm, r) == (f(r) == 2));
        }
    }
}

/// The multiplicities of five ranks that are neither five distinct ranks nor
/// five of one rank.
proof fn lemma_hand_counts(rs: Seq<int>)
    requires
        rs.len() == 5,
        all_ranks(rs),
        forall|r: int| #[trigger] rank_count(rs, r) <= 4,
        pop13(rank_mask(rs) as int) != 5,
    ensures
        paired_shape(counts_of(rs)),
        ({
            let f = counts_of(rs);
            let n1 = num_with(f, 1, 13);
            let n2 = num_with(f, 2, 13);
            let n3 = num_with(f, 3, 13);
            let n4 = num_with(f, 4, 13);
            &&& n1 >= 0 && n2 >= 0 && n3 >= 0 && n4 >= 0
            &&& n1 + 2 * n2 + 3 * n3 + 4 * n4 == 5
            &&& n1 + n2 + n3 + n4 != 5
        }),
{
    let f = counts_of(rs);
    lemma_sum_counts_len(rs);
    assert forall|r: int| 0 <= r < 13 implies 0 <= #[trigger] f(r) <= 4 by {
        lemma_rank_count_nonneg(rs, r);
    }
    lemma_sum_counts_weighted(f, 13);
    lemma_rank_mask_bits(rs);
    lemma_present_count(f, rank_mask(rs) as int, 13);
    lemma_num_with_nonneg(f, 1, 13);
    lemma_num_with_nonneg(f, 2, 13);
    lemma_num_with_nonneg(f, 3, 13);
    lemma_num_with_nonneg(f, 4, 13);
}

/// The class and key read off a paired hand's multiplicities are valid, and
/// the key's ranks are the hand's ranks.
pub proof fn lemma_hand_class(rs: Seq<int>)
    requires
        rs.len() == 5,
        all_ranks(rs),
        forall|r: int| #[trigger] rank_count(rs, r) <= 4,
        pop13(rank_mask(rs) as int) != 5,
    ensures
        1 <= class_of(counts_of(rs)) <= 5,
        valid_key(class_of(counts_of(rs)), key_of(counts_of(rs))),
        key_ranks(class_of(counts_of(rs)), key_of(counts_of(rs))).to_multiset()
            == rs.to_multiset(),
{
    let f = counts_of(rs);
    lemma_hand_counts(rs);
    let n1 = num_with(f, 1, 13);
    let n2 = num_with(f, 2, 13);
    let n3 = num_with(f, 3, 13);
    let n4 = num_with(f, 4, 13);
    if n4 >= 1 {
        lemma_hand_groups(f, 1);
    } else if n3 >= 1 && n2 >= 1 {
        lemma_hand_groups(f, 2);
    } else if n3 >= 1 {
        lemma_hand_kickers(f, 3);
    } else if n2 >= 2 {
        lemma_hand_two_pair(f);
    } else {
        lemma_hand_kickers(f, 5);
    }
    let cat = class_of(f);
    let key = key_of(f);
    assert forall|r: int| #[trigger] rank_count(key_ranks(cat, key), r) == rank_count(rs, r) by {
        assert(f(r) == rank_count(rs, r));
    }
    lemma_counts_to_multiset(key_ranks(cat, key), rs);
}

} // verus!
