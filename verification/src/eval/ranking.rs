//! The ranking of five-card poker hands, stated mathematically.
//!
//! A hand falls in one of six classes by the multiplicities of its ranks:
//! five distinct ranks (class 0), four of a kind (1), full house (2), three of
//! a kind (3), two pair (4) and one pair (5). Within a class the hand has a
//! key, a number that orders hands of the class the way poker does: the rank
//! of the larger group first, then the kickers from the highest down. Kicker
//! sets are 13-bit rank masks; for sets of equal size, comparing masks as
//! numbers is comparing their ranks from the highest down.
//!
//! The Cactus Kev rank of a hand is the base rank of its category plus the
//! number of valid keys of the class above the hand's key; flushes and
//! straights are looked up by the rank mask.

use crate::bits::{bit, count_bits};
use crate::cards::card::Card;
use crate::eval::counting::cnt;
use crate::eval::primes::prime_prod;
use vstd::prelude::*;

verus! {

/// Bit `r` of the rank mask `m`.
pub open spec fn mbit(m: int, r: int) -> bool {
    bit(m as u64, r as u64)
}

/// Number of ranks in the 13-bit mask `m`.
pub open spec fn pop13(m: int) -> nat {
    count_bits(m as u64, 13)
}

/// The position of a rank mask among the ten straights (Broadway = 0, the
/// wheel A-5 = 9), or -1 when the mask is no straight.
pub open spec fn straight_index(m: int) -> int {
    if m == 7936 {
        0
    } else if m == 3968 {
        1
    } else if m == 1984 {
        2
    } else if m == 992 {
        3
    } else if m == 496 {
        4
    } else if m == 248 {
        5
    } else if m == 124 {
        6
    } else if m == 62 {
        7
    } else if m == 31 {
        8
    } else if m == 4111 {
        9
    } else {
        -1
    }
}

/// One past the largest key of a class.
pub open spec fn key_limit(cat: int) -> int {
    if cat == 0 {
        8192
    } else if cat == 1 || cat == 2 {
        169
    } else {
        106496
    }
}

/// Whether `key` is the key of some hand of class `cat`.
///
/// - class 0: a rank mask with five ranks that is no straight;
/// - classes 1 and 2: `a * 13 + b` with `a != b` (the group of four or
///   three, then the single or the pair);
/// - classes 3 and 5: `t * 8192 + m` with `m` a mask of two (class 3) or
///   three (class 5) kickers not containing the trips or pair rank `t`;
/// - class 4: `m * 13 + k` with `m` the mask of the two pairs and kicker `k`
///   not among them.
pub open spec fn valid_key(cat: int, key: int) -> bool {
    &&& 0 <= key < key_limit(cat)
    &&& if cat == 0 {
        pop13(key) == 5 && straight_index(key) < 0
    } else if cat == 1 || cat == 2 {
        key / 13 != key % 13
    } else if cat == 3 {
        pop13(key % 8192) == 2 && !mbit(key % 8192, key / 8192)
    } else if cat == 4 {
        pop13(key / 13) == 2 && !mbit(key / 13, key % 13)
    } else if cat == 5 {
        pop13(key % 8192) == 3 && !mbit(key % 8192, key / 8192)
    } else {
        false
    }
}

/// The valid keys of class `cat`, as a predicate.
pub open spec fn valid_in(cat: int) -> spec_fn(int) -> bool {
    |k: int| valid_key(cat, k)
}

/// Number of valid keys of class `cat` above `key`: the hands of the class
/// that beat a hand with this key.
pub open spec fn count_above(cat: int, key: int) -> nat {
    cnt(valid_in(cat), key + 1, key_limit(cat))
}

/// The Cactus Kev rank of the best paired hand of each class.
pub open spec fn pair_base(cat: int) -> int {
    if cat == 1 {
        11
    } else if cat == 2 {
        167
    } else if cat == 3 {
        1610
    } else if cat == 4 {
        2468
    } else {
        3326
    }
}

/// The ranks of mask `m` below `n`, lowest first.
pub open spec fn mask_seq(m: int, n: int) -> Seq<int>
    decreases n,
{
    if n <= 0 {
        Seq::empty()
    } else if mbit(m, n - 1) {
        mask_seq(m, n - 1).push(n - 1)
    } else {
        mask_seq(m, n - 1)
    }
}

/// The five ranks of a hand of class `cat` with key `key` (paired classes).
pub open spec fn key_ranks(cat: int, key: int) -> Seq<int> {
    if cat == 1 {
        let a = key / 13;
        let b = key % 13;
        seq![a, a, a, a, b]
    } else if cat == 2 {
        let a = key / 13;
        let b = key % 13;
        seq![a, a, a, b, b]
    } else if cat == 3 {
        let t = key / 8192;
        seq![t, t, t] + mask_seq(key % 8192, 13)
    } else if cat == 4 {
        let m = key / 13;
        mask_seq(m, 13) + mask_seq(m, 13) + seq![key % 13]
    } else {
        let p = key / 8192;
        seq![p, p] + mask_seq(key % 8192, 13)
    }
}

/// The prime-product key under which a paired hand of class `cat` and key
/// `key` is stored.
pub open spec fn key_product(cat: int, key: int) -> int {
    prime_prod(key_ranks(cat, key))
}

/// The Cactus Kev rank stored for a paired key.
pub open spec fn key_ck(cat: int, key: int) -> int {
    pair_base(cat) + count_above(cat, key)
}

/// The entry of a rank-mask table whose straights start at Cactus Kev rank
/// `straight_base` and whose other five-rank hands start at `high_base`;
/// masks of fewer than five ranks hold 0.
pub open spec fn mask_entry(straight_base: int, high_base: int, m: int) -> int {
    if straight_index(m) >= 0 {
        straight_base + straight_index(m)
    } else if valid_key(0, m) {
        high_base + count_above(0, m)
    } else {
        0
    }
}

/// The flush table's entry for rank mask `m`.
pub open spec fn flush_entry(m: int) -> int {
    mask_entry(1, 323, m)
}

/// The non-flush table's entry for rank mask `m` (straights and high cards).
pub open spec fn unique_entry(m: int) -> int {
    mask_entry(1600, 6186, m)
}

/// A pairs-table entry: the prime product and Cactus Kev rank of a valid key
/// of a paired class.
pub open spec fn is_pair_entry(e: (u32, u16)) -> bool {
    exists|cat: int, key: int|
        1 <= cat <= 5 && valid_key(cat, key) && e.0 as int == key_product(cat, key) && e.1 as int
            == key_ck(cat, key)
}

// ---------------------------------------------------------------------------
// The hand side: ranks, their multiplicities, class and key.

/// The rank indices of the cards of a hand.
pub open spec fn hand_ranks(h: Seq<Card>) -> Seq<int> {
    h.map_values(|c: Card| c.rank.idx())
}

/// How often rank `r` occurs in `rs`.
pub open spec fn rank_count(rs: Seq<int>, r: int) -> int
    decreases rs.len(),
{
    if rs.len() == 0 {
        0
    } else {
        rank_count(rs.drop_last(), r) + if rs.last() == r {
            1int
        } else {
            0int
        }
    }
}

/// The rank mask of `rs`: bit `r` set for every rank that occurs.
pub open spec fn rank_mask(rs: Seq<int>) -> u16
    decreases rs.len(),
{
    if rs.len() == 0 {
        0
    } else {
        rank_mask(rs.drop_last()) | (1u16 << (rs.last() as u16))
    }
}

/// Number of ranks below `n` that occur exactly `c` times.
pub open spec fn num_with(cf: spec_fn(int) -> int, c: int, n: int) -> int
    decreases n,
{
    if n <= 0 {
        0
    } else {
        num_with(cf, c, n - 1) + if cf(n - 1) == c {
            1int
        } else {
            0int
        }
    }
}

/// The highest rank below `n` that occurs exactly `c` times, or -1.
pub open spec fn top_with(cf: spec_fn(int) -> int, c: int, n: int) -> int
    decreases n,
{
    if n <= 0 {
        -1
    } else if cf(n - 1) == c {
        n - 1
    } else {
        top_with(cf, c, n - 1)
    }
}

/// The mask of the ranks below `n` that occur exactly `c` times.
pub open spec fn mask_with(cf: spec_fn(int) -> int, c: int, n: int) -> int
    decreases n,
{
    if n <= 0 {
        0
    } else {
        mask_with(cf, c, n - 1) + if cf(n - 1) == c {
            crate::eval::counting::pow2i((n - 1) as nat)
        } else {
            0
        }
    }
}

/// The class of a paired hand with rank multiplicities `cf`.
pub open spec fn class_of(cf: spec_fn(int) -> int) -> int {
    if num_with(cf, 4, 13) >= 1 {
        1
    } else if num_with(cf, 3, 13) >= 1 && num_with(cf, 2, 13) >= 1 {
        2
    } else if num_with(cf, 3, 13) >= 1 {
        3
    } else if num_with(cf, 2, 13) >= 2 {
        4
    } else {
        5
    }
}

/// The key of a paired hand with rank multiplicities `cf`.
pub open spec fn key_of(cf: spec_fn(int) -> int) -> int {
    let cat = class_of(cf);
    if cat == 1 {
        top_with(cf, 4, 13) * 13 + top_with(cf, 1, 13)
    } else if cat == 2 {
        top_with(cf, 3, 13) * 13 + top_with(cf, 2, 13)
    } else if cat == 3 {
        top_with(cf, 3, 13) * 8192 + mask_with(cf, 1, 13)
    } else if cat == 4 {
        mask_with(cf, 2, 13) * 13 + top_with(cf, 1, 13)
    } else {
        top_with(cf, 2, 13) * 8192 + mask_with(cf, 1, 13)
    }
}

/// The rank multiplicities of `rs`.
pub open spec fn counts_of(rs: Seq<int>) -> spec_fn(int) -> int {
    |r: int| rank_count(rs, r)
}

/// Whether all five cards share a suit.
pub open spec fn same_suit(h: Seq<Card>) -> bool {
    h[1].suit == h[0].suit && h[2].suit == h[0].suit && h[3].suit == h[0].suit && h[4].suit
        == h[0].suit
}

/// Whether all five cards share a rank (no such hand is dealt from one deck).
pub open spec fn same_rank(h: Seq<Card>) -> bool {
    h[1].rank == h[0].rank && h[2].rank == h[0].rank && h[3].rank == h[0].rank && h[4].rank
        == h[0].rank
}

/// The Cactus Kev rank of a five-card hand (1 = royal flush, 7462 = the
/// worst high card).
pub open spec fn hand_ck(h: Seq<Card>) -> int {
    let rs = hand_ranks(h);
    let m = rank_mask(rs) as int;
    if same_suit(h) {
        flush_entry(m)
    } else if pop13(m) == 5 {
        unique_entry(m)
    } else {
        let cf = counts_of(rs);
        key_ck(class_of(cf), key_of(cf))
    }
}

/// The value of a five-card hand: higher is stronger.
pub open spec fn hand_value(h: Seq<Card>) -> int {
    7463 - hand_ck(h)
}

} // verus!
