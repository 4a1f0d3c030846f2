//! How many valid keys each hand class has at most: the counts that keep
//! every Cactus Kev rank within 1..=7462.

use crate::bits::{bit, count_bits};
use crate::eval::counting::{
    binom, cnt, lemma_binom_13, lemma_cnt_bits, lemma_cnt_blocks_div, lemma_cnt_blocks_exact,
    lemma_cnt_blocks_mod, lemma_cnt_ext, lemma_cnt_le_len, lemma_cnt_mono, lemma_cnt_never,
    lemma_cnt_popcount, lemma_cnt_popcount_avoid, lemma_cnt_shift, lemma_cnt_split, pow2i,
};
use crate::eval::ranking::{count_above, key_limit, pop13, straight_index, valid_in, valid_key};
use vstd::prelude::*;

verus! {

/// The most valid keys a class can have.
pub open spec fn class_bound(cat: int) -> int {
    if cat == 0 {
        1277
    } else if cat == 1 || cat == 2 {
        169
    } else if cat == 3 || cat == 4 {
        1014
    } else {
        3718
    }
}

/// Masks below 8192 with `k` ranks number `13` choose `k`.
proof fn lemma_pop13_count(k: nat)
    ensures
        cnt(|m: int| pop13(m) == k, 0, 8192) == binom(13, k),
{
    lemma_cnt_popcount(13, k);
    assert(pow2i(13) == 8192) by {
        reveal_with_fuel(pow2i, 14);
    }
    lemma_cnt_ext(|m: int| pop13(m) == k, |m: int| count_bits(m as u64, 13) == k, 0, 8192);
}

/// Counting `p` splits into counting `p && q` and `p && !q`.
proof fn lemma_cnt_partition(p: spec_fn(int) -> bool, q: spec_fn(int) -> bool, lo: int, hi: int)
    ensures
        cnt(p, lo, hi) == cnt(|x: int| p(x) && q(x), lo, hi) + cnt(|x: int| p(x) && !q(x), lo, hi),
    decreases hi - lo,
{
    if lo < hi {
        lemma_cnt_partition(p, q, lo + 1, hi);
    }
}

/// A point where `p` holds adds one to the count of the rest of the range.
proof fn lemma_cnt_point(p: spec_fn(int) -> bool, lo: int, x: int, hi: int)
    requires
        lo <= x < hi,
        p(x),
    ensures
        cnt(p, lo, hi) >= 1 + cnt(p, x + 1, hi),
{
    lemma_cnt_split(p, lo, x, hi);
}

/// The ten straights are five-rank masks.
pub(crate) proof fn lemma_straights_have_five_ranks()
    ensures
        pop13(31) == 5 && pop13(62) == 5 && pop13(124) == 5 && pop13(248) == 5 && pop13(496) == 5
            && pop13(992) == 5 && pop13(1984) == 5 && pop13(3968) == 5 && pop13(4111) == 5
            && pop13(7936) == 5,
{
    reveal_with_fuel(count_bits, 14);
    assert({
        &&& (31u64 >> 0u64) & 1 == 1 && (31u64 >> 1u64) & 1 == 1 && (31u64 >> 2u64) & 1 == 1 && (31u64
            >> 3u64) & 1 == 1 && (31u64 >> 4u64) & 1 == 1
        &&& (31u64 >> 5u64) & 1 == 0 && (31u64 >> 6u64) & 1 == 0 && (31u64 >> 7u64) & 1 == 0 && (31u64
            >> 8u64) & 1 == 0 && (31u64 >> 9u64) & 1 == 0 && (31u64 >> 10u64) & 1 == 0 && (31u64
            >> 11u64) & 1 == 0 && (31u64 >> 12u64) & 1 == 0
        &&& (62u64 >> 0u64) & 1 == 0 && (62u64 >> 1u64) & 1 == 1 && (62u64 >> 2u64) & 1 == 1 && (62u64
            >> 3u64) & 1 == 1 && (62u64 >> 4u64) & 1 == 1 && (62u64 >> 5u64) & 1 == 1
        &&& (62u64 >> 6u64) & 1 == 0 && (62u64 >> 7u64) & 1 == 0 && (62u64 >> 8u64) & 1 == 0 && (62u64
            >> 9u64) & 1 == 0 && (62u64 >> 10u64) & 1 == 0 && (62u64 >> 11u64) & 1 == 0 && (62u64
            >> 12u64) & 1 == 0
        &&& (124u64 >> 0u64) & 1 == 0 && (124u64 >> 1u64) & 1 == 0 && (124u64 >> 2u64) & 1 == 1
            && (124u64 >> 3u64) & 1 == 1 && (124u64 >> 4u64) & 1 == 1 && (124u64 >> 5u64) & 1 == 1
            && (124u64 >> 6u64) & 1 == 1
        &&& (124u64 >> 7u64) & 1 == 0 && (124u64 >> 8u64) & 1 == 0 && (124u64 >> 9u64) & 1 == 0 && (
        124u64 >> 10u64) & 1 == 0 && (124u64 >> 11u64) & 1 == 0 && (124u64 >> 12u64) & 1 == 0
        &&& (248u64 >> 0u64) & 1 == 0 && (248u64 >> 1u64) & 1 == 0 && (248u64 >> 2u64) & 1 == 0
            && (248u64 >> 3u64) & 1 == 1 && (248u64 >> 4u64) & 1 == 1 && (248u64 >> 5u64) & 1 == 1
            && (248u64 >> 6u64) & 1 == 1 && (248u64 >> 7u64) & 1 == 1
        &&& (248u64 >> 8u64) & 1 == 0 && (248u64 >> 9u64) & 1 == 0 && (248u64 >> 10u64) & 1 == 0
            && (248u64 >> 11u64) & 1 == 0 && (248u64 >> 12u64) & 1 == 0
        &&& (496u64 >> 0u64) & 1 == 0 && (496u64 >> 1u64) & 1 == 0 && (496u64 >> 2u64) & 1 == 0
            && (496u64 >> 3u64) & 1 == 0 && (496u64 >> 4u64) & 1 == 1 && (496u64 >> 5u64) & 1 == 1
            && (496u64 >> 6u64) & 1 == 1 && (496u64 >> 7u64) & 1 == 1 && (496u64 >> 8u64) & 1 == 1
        &&& (496u64 >> 9u64) & 1 == 0 && (496u64 >> 10u64) & 1 == 0 && (496u64 >> 11u64) & 1 == 0
            && (496u64 >> 12u64) & 1 == 0
        &&& (992u64 >> 0u64) & 1 == 0 && (992u64 >> 1u64) & 1 == 0 && (992u64 >> 2u64) & 1 == 0
            && (992u64 >> 3u64) & 1 == 0 && (992u64 >> 4u64) & 1 == 0 && (992u64 >> 5u64) & 1 == 1
            && (992u64 >> 6u64) & 1 == 1 && (992u64 >> 7u64) & 1 == 1 && (992u64 >> 8u64) & 1 == 1
            && (992u64 >> 9u64) & 1 == 1
        &&& (992u64 >> 10u64) & 1 == 0 && (992u64 >> 11u64) & 1 == 0 && (992u64 >> 12u64) & 1 == 0
        &&& (1984u64 >> 0u64) & 1 == 0 && (1984u64 >> 1u64) & 1 == 0 && (1984u64 >> 2u64) & 1 == 0
            && (1984u64 >> 3u64) & 1 == 0 && (1984u64 >> 4u64) & 1 == 0 && (1984u64 >> 5u64) & 1
            == 0 && (1984u64 >> 6u64) & 1 == 1 && (1984u64 >> 7u64) & 1 == 1 && (1984u64 >> 8u64)
            & 1 == 1 && (1984u64 >> 9u64) & 1 == 1 && (1984u64 >> 10u64) & 1 == 1
        &&& (1984u64 >> 11u64) & 1 == 0 && (1984u64 >> 12u64) & 1 == 0
        &&& (3968u64 >> 0u64) & 1 == 0 && (3968u64 >> 1u64) & 1 == 0 && (3968u64 >> 2u64) & 1 == 0
            && (3968u64 >> 3u64) & 1 == 0 && (3968u64 >> 4u64) & 1 == 0 && (3968u64 >> 5u64) & 1
            == 0 && (3968u64 >> 6u64) & 1 == 0 && (3968u64 >> 7u64) & 1 == 1 && (3968u64 >> 8u64)
            & 1 == 1 && (3968u64 >> 9u64) & 1 == 1 && (3968u64 >> 10u64) & 1 == 1 && (3968u64
            >> 11u64) & 1 == 1 && (3968u64 >> 12u64) & 1 == 0
        &&& (4111u64 >> 0u64) & 1 == 1 && (4111u64 >> 1u64) & 1 == 1 && (4111u64 >> 2u64) & 1 == 1
            && (4111u64 >> 3u64) & 1 == 1 && (4111u64 >> 4u64) & 1 == 0 && (4111u64 >> 5u64) & 1
            == 0 && (4111u64 >> 6u64) & 1 == 0 && (4111u64 >> 7u64) & 1 == 0 && (4111u64 >> 8u64)
            & 1 == 0 && (4111u64 >> 9u64) & 1 == 0 && (4111u64 >> 10u64) & 1 == 0 && (4111u64
            >> 11u64) & 1 == 0 && (4111u64 >> 12u64) & 1 == 1
        &&& (7936u64 >> 0u64) & 1 == 0 && (7936u64 >> 1u64) & 1 == 0 && (7936u64 >> 2u64) & 1 == 0
            && (7936u64 >> 3u64) & 1 == 0 && (7936u64 >> 4u64) & 1 == 0 && (7936u64 >> 5u64) & 1
            == 0 && (7936u64 >> 6u64) & 1 == 0 && (7936u64 >> 7u64) & 1 == 0 && (7936u64 >> 8u64)
            & 1 == 1 && (7936u64 >> 9u64) & 1 == 1 && (7936u64 >> 10u64) & 1 == 1 && (7936u64
            >> 11u64) & 1 == 1 && (7936u64 >> 12u64) & 1 == 1
    }) by (bit_vector);
}

/// Each class has at most `class_bound` valid keys.
pub proof fn lemma_class_total(cat: int)
    requires
        0 <= cat <= 5,
    ensures
        cnt(valid_in(cat), 0, key_limit(cat)) <= class_bound(cat),
{
    lemma_binom_13();
    if cat == 1 || cat == 2 {
        lemma_cnt_le_len(valid_in(cat), 0, 169);
    } else if cat == 3 || cat == 5 {
        let k: nat = if cat == 3 {
            2
        } else {
            3
        };
        let q = |m: int| pop13(m) == k;
        assert forall|x: int| 0 <= x < 13 * 8192 && #[trigger] valid_in(cat)(x) implies q(
            x % 8192,
        ) by {}
        lemma_cnt_blocks_mod(valid_in(cat), q, 13, 8192);
        lemma_pop13_count(k);
    } else if cat == 4 {
        let q = |m: int| pop13(m) == 2;
        assert forall|x: int| 0 <= x < 8192 * 13 && #[trigger] valid_in(cat)(x) implies q(x / 13) by {}
        lemma_cnt_blocks_div(valid_in(cat), q, 8192, 13);
        lemma_pop13_count(2);
    } else {
        let p5 = |m: int| pop13(m) == 5;
        let st = |m: int| straight_index(m) >= 0;
        lemma_cnt_partition(p5, st, 0, 8192);
        lemma_pop13_count(5);
        lemma_cnt_ext(valid_in(0), |x: int| p5(x) && !st(x), 0, 8192);
        lemma_straights_have_five_ranks();
        let ps = |x: int| p5(x) && st(x);
        lemma_cnt_point(ps, 0, 31, 8192);
        lemma_cnt_point(ps, 32, 62, 8192);
        lemma_cnt_point(ps, 63, 124, 8192);
        lemma_cnt_point(ps, 125, 248, 8192);
        lemma_cnt_point(ps, 249, 496, 8192);
        lemma_cnt_point(ps, 497, 992, 8192);
        lemma_cnt_point(ps, 993, 1984, 8192);
        lemma_cnt_point(ps, 1985, 3968, 8192);
        lemma_cnt_point(ps, 3969, 4111, 8192);
        lemma_cnt_point(ps, 4112, 7936, 8192);
    }
}

/// Keys above a valid key are fewer than the class's valid keys.
pub proof fn lemma_count_above_bound(cat: int, key: int)
    requires
        0 <= cat <= 5,
        valid_key(cat, key),
    ensures
        crate::eval::ranking::count_above(cat, key) < class_bound(cat),
{
    lemma_class_total(cat);
    lemma_cnt_split(valid_in(cat), 0, key, key_limit(cat));
    assert(cnt(valid_in(cat), key, key_limit(cat)) == 1 + cnt(valid_in(cat), key + 1, key_limit(cat)));
}

/// The number of hands of each class: 1277 high-card shapes, 156 four of a
/// kind and full house, 858 three of a kind and two pair, 2860 one pair.
pub open spec fn class_size(cat: int) -> int {
    if cat == 0 {
        1277
    } else if cat == 1 || cat == 2 {
        156
    } else if cat == 3 || cat == 4 {
        858
    } else {
        2860
    }
}

/// Every integer of a range.
proof fn lemma_cnt_all(lo: int, hi: int)
    requires
        lo <= hi,
    ensures
        cnt(|y: int| true, lo, hi) == hi - lo,
    decreases hi - lo,
{
    if lo < hi {
        lemma_cnt_all(lo + 1, hi);
    }
}

/// Every integer of a range but one.
proof fn lemma_cnt_skip_one(i: int, lo: int, hi: int)
    requires
        lo <= i < hi,
    ensures
        cnt(|y: int| y != i, lo, hi) == hi - lo - 1,
    decreases hi - lo,
{
    if lo == i {
        lemma_cnt_ext(|y: int| y != i, |y: int| true, lo + 1, hi);
        lemma_cnt_all(lo + 1, hi);
    } else {
        lemma_cnt_skip_one(i, lo + 1, hi);
    }
}

/// A predicate and its negation split a range.
proof fn lemma_cnt_complement(p: spec_fn(int) -> bool, lo: int, hi: int)
    requires
        lo <= hi,
    ensures
        cnt(p, lo, hi) + cnt(|y: int| !p(y), lo, hi) == hi - lo,
    decreases hi - lo,
{
    if lo < hi {
        lemma_cnt_complement(p, lo + 1, hi);
    }
}

/// Four of a kind and full house keys `a * 13 + b` with `a != b`: twelve
/// per group rank.
proof fn lemma_groups_size(cat: int)
    requires
        cat == 1 || cat == 2,
    ensures
        cnt(valid_in(cat), 0, 169) == 156,
{
    let p = valid_in(cat);
    assert forall|i: int| 0 <= i < 13 implies #[trigger] cnt(p, i * 13, i * 13 + 13) == 12 by {
        let q = |y: int| y != i;
        assert forall|y: int| 0 <= y < 13 implies #[trigger] q(y) == p(y + i * 13) by {
            vstd::arithmetic::div_mod::lemma_fundamental_div_mod_converse(y + i * 13, 13, i, y);
        }
        lemma_cnt_shift(p, q, 0, 13, i * 13);
        lemma_cnt_skip_one(i, 0, 13);
    }
    lemma_cnt_blocks_exact(p, 13, 13, 12);
}

/// Three of a kind (`k == 2`) and one pair (`k == 3`) keys `t * 8192 + m`:
/// the kicker masks with `k` ranks other than `t`, `12` choose `k` per `t`.
proof fn lemma_kickers_size(cat: int, k: nat)
    requires
        (cat == 3 && k == 2) || (cat == 5 && k == 3),
    ensures
        cnt(valid_in(cat), 0, 106496) == 13 * binom(12, k),
{
    let p = valid_in(cat);
    assert(pow2i(13) == 8192) by {
        reveal_with_fuel(pow2i, 14);
    }
    assert forall|i: int| 0 <= i < 13 implies #[trigger] cnt(p, i * 8192, i * 8192 + 8192) == binom(
        12,
        k,
    ) by {
        let q = |m: int| count_bits(m as u64, 13) == k && !bit(m as u64, i as u64);
        assert forall|y: int| 0 <= y < 8192 implies #[trigger] q(y) == p(y + i * 8192) by {
            vstd::arithmetic::div_mod::lemma_fundamental_div_mod_converse(y + i * 8192, 8192, i, y);
        }
        lemma_cnt_shift(p, q, 0, 8192, i * 8192);
        lemma_cnt_popcount_avoid(13, k, i as nat);
    }
    lemma_cnt_blocks_exact(p, 13, 8192, binom(12, k) as int);
}

/// Two pair keys `m * 13 + k`: for each mask of two pair ranks, the eleven
/// kickers off it.
proof fn lemma_two_pair_size()
    ensures
        cnt(valid_in(4), 0, 106496) == 858,
{
    let p = valid_in(4);
    let q = |m: int| pop13(m) == 2;
    lemma_blocks_weighted(p, q, 8192, 13, 11);
    lemma_pop13_count(2);
    lemma_binom_13();
}

/// Each two pair block holds eleven keys when its mask has two ranks, none
/// otherwise; the total is eleven per such mask.
proof fn lemma_blocks_weighted(p: spec_fn(int) -> bool, q: spec_fn(int) -> bool, n: int, b: int, c: int)
    requires
        p == valid_in(4),
        q == (|m: int| pop13(m) == 2),
        b == 13,
        c == 11,
        0 <= n <= 8192,
    ensures
        cnt(p, 0, n * b) == c * cnt(q, 0, n),
    decreases n,
{
    if n > 0 {
        let m = n - 1;
        lemma_blocks_weighted(p, q, m, b, c);
        assert(m * 13 + 13 == n * 13);
        lemma_cnt_split(p, 0, m * 13, n * 13);
        lemma_cnt_split(q, 0, m, n);
        assert(cnt(q, m + 1, n) == 0);
        let shifted = |y: int| p(y + m * 13);
        lemma_cnt_shift(p, shifted, 0, 13, m * 13);
        if q(m) {
            let avoid = |y: int| !bit(m as u64, y as u64);
            assert forall|y: int| 0 <= y < 13 implies #[trigger] shifted(y) == avoid(y) by {
                vstd::arithmetic::div_mod::lemma_fundamental_div_mod_converse(y + m * 13, 13, m, y);
            }
            lemma_cnt_ext(shifted, avoid, 0, 13);
            lemma_cnt_bits(m as u64, 13);
            lemma_cnt_complement(|y: int| bit(m as u64, y as u64), 0, 13);
            lemma_cnt_ext(avoid, |y: int| !(|y: int| bit(m as u64, y as u64))(y), 0, 13);
        } else {
            let never = |y: int| false;
            assert forall|y: int| 0 <= y < 13 && #[trigger] shifted(y) implies never(y) by {
                vstd::arithmetic::div_mod::lemma_fundamental_div_mod_converse(y + m * 13, 13, m, y);
            }
            lemma_cnt_mono(shifted, never, 0, 13);
            lemma_cnt_never(0, 13);
        }
        assert(c * cnt(q, 0, m) + c * cnt(q, m, n) == c * cnt(q, 0, n)) by (nonlinear_arith)
            requires
                cnt(q, 0, n) == cnt(q, 0, m) + cnt(q, m, n),
        ;
    }
}

/// Each class has at most `class_size` valid keys, and each paired class
/// exactly that many.
pub proof fn lemma_class_size(cat: int)
    requires
        0 <= cat <= 5,
    ensures
        cnt(valid_in(cat), 0, key_limit(cat)) <= class_size(cat),
        1 <= cat ==> cnt(valid_in(cat), 0, key_limit(cat)) == class_size(cat),
{
    if cat == 0 {
        lemma_class_total(0);
    } else if cat == 1 || cat == 2 {
        lemma_groups_size(cat);
    } else if cat == 3 || cat == 5 {
        let k: nat = if cat == 3 {
            2
        } else {
            3
        };
        lemma_kickers_size(cat, k);
        assert(binom(12, 2) == 66 && binom(12, 3) == 220) by {
            reveal_with_fuel(binom, 14);
        }
    } else {
        lemma_two_pair_size();
    }
}

/// Keys above a valid key are fewer than the class's hands.
pub proof fn lemma_count_above_size(cat: int, key: int)
    requires
        0 <= cat <= 5,
        valid_key(cat, key),
    ensures
        count_above(cat, key) < class_size(cat),
{
    lemma_class_size(cat);
    lemma_cnt_split(valid_in(cat), 0, key, key_limit(cat));
    assert(cnt(valid_in(cat), key, key_limit(cat)) == 1 + cnt(valid_in(cat), key + 1, key_limit(cat)));
}

} // verus!
