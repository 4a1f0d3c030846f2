//! Lookup tables for O(1) five-card evaluation, after the Cactus Kev scheme:
//! a table indexed by rank mask for flushes, one for straights and high
//! cards, and a table of prime products for paired hands.
//!
//! Each table is built by walking the keys of a hand class from the
//! strongest down and numbering the valid ones, so an entry's Cactus Kev rank
//! is its class's base plus the number of stronger hands of the class.

use crate::bits::{count_bits, lemma_count_bits_high_zero};
use crate::cards::card::Card;
use crate::eval::class_counts::{class_bound, lemma_class_size, lemma_class_total};
use crate::eval::counting::{cnt, lemma_cnt_split};
use crate::eval::hand_class::lemma_key_class;
use crate::eval::primes::{all_ranks, lemma_unique_factorisation, prime_prod, rank_prime};
use crate::eval::ranking::{
    count_above, flush_entry, hand_ranks, is_pair_entry, key_ck, key_limit, key_product,
    key_ranks, mask_entry, mask_seq, pair_base, pop13, rank_mask, same_suit,
    straight_index, unique_entry, valid_in, valid_key,
};
use crate::eval::ranking_proofs::lemma_multiset_to_counts;
use vstd::prelude::*;

verus! {

/// The number of set bits of the word.
fn count_ones_u64(x: u64) -> (r: u32)
    ensures
        r as nat == count_bits(x, 64),
{
    let mut r: u32 = 0;
    let mut i: u64 = 0;
    while i < 64
        invariant
            i <= 64,
            r as nat == count_bits(x, i as nat),
            r <= i,
        decreases 64 - i,
    {
        if (x >> i) & 1 == 1 {
            r += 1;
        }
        i += 1;
    }
    r
}

/// Number of ranks in a 13-bit rank mask.
pub fn rank_count_of_mask(m: u64) -> (r: u32)
    requires
        m < 8192,
    ensures
        r as nat == pop13(m as int),
        r <= 13,
{
    proof {
        assert(m < 8192 ==> m >> 13u64 == 0) by (bit_vector);
        lemma_count_bits_high_zero(m, 13, 64);
        crate::bits::lemma_count_bits_mono(m, 13, 13);
        lemma_count_bits_le(m, 13);
    }
    count_ones_u64(m)
}

/// At most `n` bits are set below `n`.
proof fn lemma_count_bits_le(x: u64, n: nat)
    ensures
        count_bits(x, n) <= n,
    decreases n,
{
    if n > 0 {
        lemma_count_bits_le(x, (n - 1) as nat);
    }
}

/// The position of a rank mask among the ten straights, or -1.
pub fn straight_index_of(mask: u16) -> (r: i32)
    ensures
        r as int == straight_index(mask as int),
{
    if mask == 7936 {
        0
    } else if mask == 3968 {
        1
    } else if mask == 1984 {
        2
    } else if mask == 992 {
        3
    } else if mask == 496 {
        4
    } else if mask == 248 {
        5
    } else if mask == 124 {
        6
    } else if mask == 62 {
        7
    } else if mask == 31 {
        8
    } else if mask == 4111 {
        9
    } else {
        -1
    }
}

/// Whether a rank mask is one of the ten straights.
pub fn is_straight(mask: u16) -> (r: bool)
    ensures
        r == (straight_index(mask as int) >= 0),
{
    straight_index_of(mask) >= 0
}

/// Fill a rank-mask table: straights numbered from `straight_base`, other
/// five-rank masks from `high_base` in descending mask order, the rest 0.
fn build_mask_table(straight_base: u16, high_base: u16) -> (t: Vec<u16>)
    requires
        straight_base <= 1600,
        high_base <= 6186,
    ensures
        t@.len() == 8192,
        forall|m: int| 0 <= m < 8192 ==> #[trigger] t@[m] as int == mask_entry(
            straight_base as int,
            high_base as int,
            m,
        ),
{
    let mut table: Vec<u16> = Vec::new();
    let mut i: usize = 0;
    while i < 8192
        invariant
            i <= 8192,
            table@.len() == i,
            forall|j: int| 0 <= j < i ==> #[trigger] table@[j] == 0,
        decreases 8192 - i,
    {
        table.push(0);
        i += 1;
    }
    let mut counter: u16 = 0;
    let mut m: usize = 8192;
    while m > 0
        invariant
            m <= 8192,
            straight_base <= 1600,
            high_base <= 6186,
            table@.len() == 8192,
            counter as nat == cnt(valid_in(0), m as int, 8192),
            counter as int <= 8192 - m,
            forall|j: int| 0 <= j < m ==> #[trigger] table@[j] == 0,
            forall|j: int|
                m <= j < 8192 ==> #[trigger] table@[j] as int == mask_entry(
                    straight_base as int,
                    high_base as int,
                    j,
                ),
        decreases m,
    {
        m -= 1;
        let mk = m as u16;
        let si = straight_index_of(mk);
        let pop = rank_count_of_mask(m as u64);
        let valid = pop == 5 && si < 0;
        proof {
            assert(valid == valid_key(0, m as int));
            assert(valid_in(0)(m as int) == valid_key(0, m as int));
            assert(count_above(0, m as int) == cnt(valid_in(0), m + 1, 8192));
        }
        if si >= 0 {
            table.set(m, straight_base + si as u16);
        } else if valid {
            table.set(m, high_base + counter);
            counter += 1;
        }
    }
    table
}

/// The non-flush table: for each 13-bit rank mask, the Cactus Kev rank of a
/// straight (1600-1609) or high-card hand (6186 upwards, strongest first),
/// or 0 for masks of fewer than five ranks.
pub fn build_unique5_table() -> (t: Vec<u16>)
    ensures
        t@.len() == 8192,
        forall|m: int| 0 <= m < 8192 ==> #[trigger] t@[m] as int == unique_entry(m),
{
    build_mask_table(1600, 6186)
}

/// The flush table: for each 13-bit rank mask, the Cactus Kev rank of a
/// straight flush (1-10) or flush (323 upwards, strongest first), or 0.
pub fn build_flush_table() -> (t: Vec<u16>)
    ensures
        t@.len() == 8192,
        forall|m: int| 0 <= m < 8192 ==> #[trigger] t@[m] as int == flush_entry(m),
{
    build_mask_table(1, 323)
}

// ---------------------------------------------------------------------------
// Prime products.

/// `41` to the power `n`.
pub open spec fn pow41(n: nat) -> int
    decreases n,
{
    if n == 0 {
        1
    } else {
        41 * pow41((n - 1) as nat)
    }
}

/// The product of two sequences' primes is the product of the concatenation.
pub proof fn lemma_prime_prod_concat(a: Seq<int>, b: Seq<int>)
    ensures
        prime_prod(a + b) == prime_prod(a) * prime_prod(b),
    decreases b.len(),
{
    if b.len() == 0 {
        assert(a + b =~= a);
    } else {
        lemma_prime_prod_concat(a, b.drop_last());
        assert((a + b).drop_last() =~= a + b.drop_last());
        assert((a + b).last() == b.last());
        let x = prime_prod(a);
        let y = prime_prod(b.drop_last());
        let z = rank_prime(b.last());
        assert((x * y) * z == x * (y * z)) by (nonlinear_arith);
    }
}

/// The product of rank primes is at most `41` to the length.
pub proof fn lemma_prime_prod_bound(s: Seq<int>)
    ensures
        1 <= prime_prod(s) <= pow41(s.len()),
    decreases s.len(),
{
    if s.len() > 0 {
        lemma_prime_prod_bound(s.drop_last());
        let x = prime_prod(s.drop_last());
        let y = rank_prime(s.last());
        assert(1 <= x * y <= 41 * pow41((s.len() - 1) as nat)) by (nonlinear_arith)
            requires
                1 <= x <= pow41((s.len() - 1) as nat),
                2 <= y <= 41,
        ;
    }
}

/// The ranks of a mask below `n` number its set bits, and are below `n`.
pub proof fn lemma_mask_seq(m: int, n: int)
    requires
        0 <= n <= 13,
    ensures
        mask_seq(m, n).len() == count_bits(m as u64, n as nat),
        forall|i: int| 0 <= i < mask_seq(m, n).len() ==> 0 <= #[trigger] mask_seq(m, n)[i] < n,
    decreases n,
{
    if n > 0 {
        lemma_mask_seq(m, n - 1);
    }
}

/// The prime of the rank with index `i`.
fn rank_prime_exec(i: u64) -> (p: u64)
    requires
        i < 13,
    ensures
        p as int == rank_prime(i as int),
{
    if i == 0 {
        2
    } else if i == 1 {
        3
    } else if i == 2 {
        5
    } else if i == 3 {
        7
    } else if i == 4 {
        11
    } else if i == 5 {
        13
    } else if i == 6 {
        17
    } else if i == 7 {
        19
    } else if i == 8 {
        23
    } else if i == 9 {
        29
    } else if i == 10 {
        31
    } else if i == 11 {
        37
    } else {
        41
    }
}

/// The product of the primes of the ranks in a 13-bit mask of at most five ranks.
fn mask_prime_product(m: u64) -> (p: u64)
    requires
        m < 8192,
        pop13(m as int) <= 5,
    ensures
        p as int == prime_prod(mask_seq(m as int, 13)),
        p as int <= pow41(pop13(m as int)),
{
    let mut prod: u64 = 1;
    let mut r: u64 = 0;
    while r < 13
        invariant
            r <= 13,
            m < 8192,
            pop13(m as int) <= 5,
            prod as int == prime_prod(mask_seq(m as int, r as int)),
            prod as int <= pow41(count_bits(m, r as nat)),
        decreases 13 - r,
    {
        proof {
            crate::bits::lemma_count_bits_mono(m, r as nat, 13);
            crate::bits::lemma_count_bits_mono(m, (r + 1) as nat, 13);
            pow41_mono(count_bits(m, r as nat), 5);
            assert(pow41(5) == 115856201) by {
                reveal_with_fuel(pow41, 6);
            }
        }
        if (m >> r) & 1 == 1 {
            let p = rank_prime_exec(r);
            proof {
                assert(prod * p <= 41 * pow41(count_bits(m, r as nat))) by (nonlinear_arith)
                    requires
                        prod <= pow41(count_bits(m, r as nat)),
                        p <= 41,
                ;
                assert(mask_seq(m as int, (r + 1) as int) == mask_seq(m as int, r as int).push(
                    r as int,
                ));
                assert(mask_seq(m as int, (r + 1) as int).drop_last() =~= mask_seq(m as int, r as int));
            }
            prod = prod * p;
        } else {
            assert(mask_seq(m as int, (r + 1) as int) == mask_seq(m as int, r as int));
        }
        r += 1;
    }
    proof {
        pow41_mono(count_bits(m, 13), count_bits(m, 13));
    }
    prod
}

/// `41^n` is positive.
proof fn pow41_pos(n: nat)
    ensures
        pow41(n) >= 1,
    decreases n,
{
    if n > 0 {
        pow41_pos((n - 1) as nat);
    }
}

/// `41^a <= 41^b` for `a <= b`.
proof fn pow41_mono(a: nat, b: nat)
    requires
        a <= b,
    ensures
        1 <= pow41(a) <= pow41(b),
    decreases b,
{
    pow41_pos(a);
    if a < b {
        pow41_mono(a, (b - 1) as nat);
    }
}

/// One past the largest key of a class.
fn key_limit_exec(cat: u8) -> (r: u32)
    ensures
        r as int == key_limit(cat as int),
{
    if cat == 0 {
        8192
    } else if cat == 1 || cat == 2 {
        169
    } else {
        106496
    }
}

/// Whether `key` is a valid key of paired class `cat`.
fn valid_key_exec(cat: u8, key: u32) -> (r: bool)
    requires
        1 <= cat <= 5,
    ensures
        r == valid_key(cat as int, key as int),
{
    if key >= key_limit_exec(cat) {
        return false;
    }
    if cat == 1 || cat == 2 {
        key / 13 != key % 13
    } else if cat == 3 || cat == 5 {
        let km = (key % 8192) as u64;
        let t = (key / 8192) as u64;
        let want: u32 = if cat == 3 {
            2
        } else {
            3
        };
        rank_count_of_mask(km) == want && (km >> t) & 1 != 1
    } else {
        let pm = (key / 13) as u64;
        let k = (key % 13) as u64;
        rank_count_of_mask(pm) == 2 && (pm >> k) & 1 != 1
    }
}

/// `prime_prod` of a sequence with one more element.
proof fn lemma_prime_prod_push(s: Seq<int>, x: int)
    ensures
        prime_prod(s.push(x)) == prime_prod(s) * rank_prime(x),
{
    assert(s.push(x).drop_last() =~= s);
}

/// The ranks of a valid paired key are five rank indices.
pub proof fn lemma_key_ranks_shape(cat: int, key: int)
    requires
        1 <= cat <= 5,
        valid_key(cat, key),
    ensures
        key_ranks(cat, key).len() == 5,
        all_ranks(key_ranks(cat, key)),
{
    let s = key_ranks(cat, key);
    if cat == 3 || cat == 5 {
        lemma_mask_seq(key % 8192, 13);
    } else if cat == 4 {
        lemma_mask_seq(key / 13, 13);
    }
    assert forall|i: int| 0 <= i < s.len() implies 0 <= #[trigger] s[i] < 13 by {
        if cat == 4 {
            let ms = mask_seq(key / 13, 13);
            if i < ms.len() {
                assert(s[i] == ms[i]);
            } else if i < 2 * ms.len() {
                assert(s[i] == ms[i - ms.len()]);
            }
        } else if cat == 3 {
            if i >= 3 {
                assert(s[i] == mask_seq(key % 8192, 13)[i - 3]);
            }
        } else if cat == 5 {
            if i >= 2 {
                assert(s[i] == mask_seq(key % 8192, 13)[i - 2]);
            }
        }
    }
}

/// The prime product of a valid paired key.
fn key_product_exec(cat: u8, key: u32) -> (p: u32)
    requires
        1 <= cat <= 5,
        valid_key(cat as int, key as int),
    ensures
        p as int == key_product(cat as int, key as int),
{
    let ghost s = key_ranks(cat as int, key as int);
    proof {
        lemma_key_ranks_shape(cat as int, key as int);
        lemma_prime_prod_bound(s);
        assert(pow41(5) == 115856201) by {
            reveal_with_fuel(pow41, 6);
        }
    }
    let prod: u64 = if cat == 1 || cat == 2 {
        let a = (key / 13) as u64;
        let b = (key % 13) as u64;
        let pa = rank_prime_exec(a);
        let pb = rank_prime_exec(b);
        let ghost (ai, bi) = (a as int, b as int);
        proof {
            lemma_prime_prod_push(seq![ai, ai, ai, ai], bi);
            lemma_prime_prod_push(seq![ai, ai, ai, bi], bi);
            lemma_prime_prod_push(seq![ai, ai, ai], ai);
            lemma_prime_prod_push(seq![ai, ai, ai], bi);
            lemma_prime_prod_push(seq![ai, ai], ai);
            lemma_prime_prod_push(seq![ai], ai);
            lemma_prime_prod_push(Seq::<int>::empty(), ai);
            assert(seq![ai, ai, ai, ai, bi] == seq![ai, ai, ai, ai].push(bi));
            assert(seq![ai, ai, ai, bi, bi] == seq![ai, ai, ai, bi].push(bi));
            assert(seq![ai, ai, ai, bi] == seq![ai, ai, ai].push(bi));
            assert(seq![ai, ai, ai, ai] == seq![ai, ai, ai].push(ai));
            assert(seq![ai, ai, ai] == seq![ai, ai].push(ai));
            assert(seq![ai, ai] == seq![ai].push(ai));
            assert(seq![ai] == Seq::<int>::empty().push(ai));
        }
        proof {
            assert(pa * pa <= 1681 && pa * pa * pa <= 68921 && pa * pa * pa * pa <= 2825761 && pa
                * pa * pa * pb <= 2825761) by (nonlinear_arith)
                requires
                    pa <= 41,
                    pb <= 41,
            ;
        }
        if cat == 1 {
            let r = pa * pa * pa * pa * pb;
            assert(prime_prod(seq![ai]) == pa);
            assert(prime_prod(seq![ai, ai]) == pa * pa);
            assert(prime_prod(seq![ai, ai, ai]) == pa * pa * pa);
            assert(prime_prod(seq![ai, ai, ai, ai]) == pa * pa * pa * pa);
            assert(r as int == prime_prod(s));
            r
        } else {
            let r = pa * pa * pa * pb * pb;
            assert(prime_prod(seq![ai, ai, ai, bi]) == pa * pa * pa * pb);
            assert(r as int == prime_prod(s));
            r
        }
    } else if cat == 3 || cat == 5 {
        let t = (key / 8192) as u64;
        let km = (key % 8192) as u64;
        let pt = rank_prime_exec(t);
        let mp = mask_prime_product(km);
        let ghost ti = t as int;
        proof {
            assert(pow41(3) == 68921) by {
                reveal_with_fuel(pow41, 4);
            }
            lemma_prime_prod_push(seq![ti, ti], ti);
            lemma_prime_prod_push(seq![ti], ti);
            lemma_prime_prod_push(Seq::<int>::empty(), ti);
            assert(seq![ti, ti, ti] == seq![ti, ti].push(ti));
            assert(seq![ti, ti] == seq![ti].push(ti));
            assert(seq![ti] == Seq::<int>::empty().push(ti));
            lemma_prime_prod_concat(seq![ti, ti, ti], mask_seq(km as int, 13));
            lemma_prime_prod_concat(seq![ti, ti], mask_seq(km as int, 13));
        }
        proof {
            assert(pt * pt <= 1681 && pt * pt * pt <= 68921 && pt * pt * pt * mp <= 68921 * 68921
                && pt * pt * mp <= 1681 * 68921) by (nonlinear_arith)
                requires
                    pt <= 41,
                    mp <= 68921,
            ;
        }
        if cat == 3 {
            let r = pt * pt * pt * mp;
            assert(r as int == prime_prod(s));
            r
        } else {
            let r = pt * pt * mp;
            assert(r as int == prime_prod(s));
            r
        }
    } else {
        let pm = (key / 13) as u64;
        let k = (key % 13) as u64;
        let mp = mask_prime_product(pm);
        let pk = rank_prime_exec(k);
        let ghost ki = k as int;
        proof {
            assert(pow41(2) == 1681) by {
                reveal_with_fuel(pow41, 3);
            }
            let ms = mask_seq(pm as int, 13);
            lemma_prime_prod_concat(ms, ms);
            lemma_prime_prod_concat(ms + ms, seq![ki]);
            lemma_prime_prod_push(Seq::<int>::empty(), ki);
            assert(seq![ki] == Seq::<int>::empty().push(ki));
            assert(mp * mp <= 2825761 && mp * mp * pk <= 2825761 * 41) by (nonlinear_arith)
                requires
                    mp <= 1681,
                    pk <= 41,
            ;
        }
        let r = mp * mp * pk;
        assert(r as int == prime_prod(s));
        r
    };
    prod as u32
}

/// Whether `p` is the prime product of a valid key of paired class `cat`.
pub open spec fn class_product(cat: int, p: int) -> bool {
    exists|k: int| valid_key(cat, k) && p == key_product(cat, k)
}

/// Whether the entries have pairwise different prime products.
pub open spec fn distinct_products(t: Seq<(u32, u16)>) -> bool {
    forall|i: int, j: int| 0 <= i < t.len() && 0 <= j < t.len() && i != j ==> t[i].0 != t[j].0
}

/// The prime product of a paired key names its class and key: the product
/// fixes the multiset of ranks, which fixes the class and the key.
pub proof fn lemma_key_product_injective(c1: int, k1: int, c2: int, k2: int)
    requires
        1 <= c1 <= 5,
        1 <= c2 <= 5,
        valid_key(c1, k1),
        valid_key(c2, k2),
        key_product(c1, k1) == key_product(c2, k2),
    ensures
        c1 == c2,
        k1 == k2,
{
    lemma_key_ranks_shape(c1, k1);
    lemma_key_ranks_shape(c2, k2);
    lemma_unique_factorisation(key_ranks(c1, k1), key_ranks(c2, k2));
    lemma_multiset_to_counts(key_ranks(c1, k1), key_ranks(c2, k2));
    lemma_key_class(c1, k1);
    lemma_key_class(c2, k2);
}

/// A product of one paired class is no product of another.
proof fn lemma_class_product_unique(c1: int, c2: int, p: int)
    requires
        1 <= c1 <= 5,
        1 <= c2 <= 5,
        class_product(c1, p),
        class_product(c2, p),
    ensures
        c1 == c2,
{
    let k1 = choose|k: int| valid_key(c1, k) && p == key_product(c1, k);
    let k2 = choose|k: int| valid_key(c2, k) && p == key_product(c2, k);
    lemma_key_product_injective(c1, k1, c2, k2);
}

/// Whether `p` is the product of a valid key of class `c` in `lo..hi`.
pub open spec fn key_product_in(p: int, c: int, lo: int, hi: int) -> bool {
    exists|k: int| lo <= k < hi && valid_key(c, k) && p == key_product(c, k)
}

/// The entries from `start` on are products of valid keys of class `c` in
/// `lo..hi`.
pub open spec fn entries_from(t: Seq<(u32, u16)>, start: int, c: int, lo: int, hi: int) -> bool {
    forall|i: int| start <= i < t.len() ==> key_product_in(#[trigger] t[i].0 as int, c, lo, hi)
}

/// Lowering the bound on the keys keeps the entries within it.
proof fn lemma_entries_widen(t: Seq<(u32, u16)>, start: int, c: int, lo: int, hi: int)
    requires
        entries_from(t, start, c, lo + 1, hi),
    ensures
        entries_from(t, start, c, lo, hi),
{
    assert forall|i: int| start <= i < t.len() implies key_product_in(#[trigger] t[i].0 as int, c, lo, hi) by {
        let p = t[i].0 as int;
        assert(key_product_in(p, c, lo + 1, hi));
        let k = choose|k: int| lo + 1 <= k < hi && valid_key(c, k) && p == key_product(c, k);
        assert(lo <= k < hi && valid_key(c, k) && p == key_product(c, k));
    }
}

/// Appending the product of key `key` of class `c` to entries whose earlier
/// part holds no product of class `c` and whose later part holds products of
/// keys above `key`: the products stay pairwise different, and the later
/// part now holds products of keys from `key` on.
proof fn lemma_push_keeps_products(
    before: Seq<(u32, u16)>,
    start: int,
    c: int,
    key: int,
    limit: int,
    product: u32,
)
    requires
        1 <= c <= 5,
        0 <= start <= before.len(),
        distinct_products(before),
        no_later_class(before.take(start), c - 1),
        entries_from(before, start, c, key + 1, limit),
        valid_key(c, key),
        key < limit,
        product as int == key_product(c, key),
    ensures
        forall|ck: u16| #[trigger] distinct_products(before.push((product, ck))),
        forall|ck: u16| #[trigger] entries_from(before.push((product, ck)), start, c, key, limit),
{
    assert forall|i: int| 0 <= i < before.len() implies #[trigger] before[i].0 != product by {
        if i < start {
            assert(before.take(start)[i] == before[i]);
            assert(!class_product(c, before.take(start)[i].0 as int));
        } else {
            assert(key_product_in(before[i].0 as int, c, key + 1, limit));
            let k = choose|k: int|
                key + 1 <= k < limit && valid_key(c, k) && before[i].0 as int == key_product(c, k);
            if before[i].0 == product {
                lemma_key_product_injective(c, k, c, key);
            }
        }
    }
    assert forall|ck: u16| #[trigger] distinct_products(before.push((product, ck))) by {
        let t = before.push((product, ck));
        assert forall|i: int, j: int| 0 <= i < t.len() && 0 <= j < t.len() && i != j implies t[i].0
            != t[j].0 by {
            if i < before.len() && j < before.len() {
                assert(t[i] == before[i] && t[j] == before[j]);
            } else if i < before.len() {
                assert(t[i] == before[i]);
                assert(before[i].0 != product);
            } else {
                assert(t[j] == before[j]);
                assert(before[j].0 != product);
            }
        }
    }
    assert forall|ck: u16| #[trigger] entries_from(before.push((product, ck)), start, c, key, limit) by {
        let t = before.push((product, ck));
        assert forall|i: int| start <= i < t.len() implies key_product_in(#[trigger] t[i].0 as int, c, key, limit) by {
            if i < before.len() {
                assert(t[i] == before[i]);
                assert(key_product_in(before[i].0 as int, c, key + 1, limit));
                let k = choose|k: int|
                    key + 1 <= k < limit && valid_key(c, k) && before[i].0 as int == key_product(c, k);
                assert(key <= k < limit && valid_key(c, k) && t[i].0 as int == key_product(c, k));
            } else {
                assert(valid_key(c, key) && t[i].0 as int == key_product(c, key));
            }
        }
    }
}

/// Append the entries of paired class `cat`, strongest key first: each
/// valid key's prime product with `base` plus the number of stronger keys.
fn push_class(v: &mut Vec<(u32, u16)>, cat: u8, base: u16)
    requires
        1 <= cat <= 5,
        base as int == pair_base(cat as int),
        distinct_products(old(v)@),
        no_later_class(old(v)@, cat - 1),
    ensures
        distinct_products(final(v)@),
        forall|i: int|
            old(v)@.len() <= i < final(v)@.len() ==> class_product(cat as int, #[trigger] final(v)@[i].0 as int),
        final(v)@.len() == old(v)@.len() + cnt(valid_in(cat as int), 0, key_limit(cat as int)),
        forall|i: int| 0 <= i < old(v)@.len() ==> #[trigger] final(v)@[i] == old(v)@[i],
        forall|i: int|
            old(v)@.len() <= i < final(v)@.len() ==> is_pair_entry(#[trigger] final(v)@[i]),
        forall|key: int|
            #[trigger] valid_key(cat as int, key) ==> exists|i: int|
                old(v)@.len() <= i < final(v)@.len() && final(v)@[i].0 as int == key_product(
                    cat as int,
                    key,
                ) && final(v)@[i].1 as int == key_ck(cat as int, key),
{
    let limit = key_limit_exec(cat);
    let ghost c = cat as int;
    let ghost start = v@.len();
    let mut counter: u16 = 0;
    let mut key: u32 = limit;
    proof {
        lemma_class_total(c);
        assert(v@.take(start as int) =~= old(v)@);
    }
    while key > 0
        invariant
            1 <= cat <= 5,
            c == cat as int,
            base as int == pair_base(c),
            limit as int == key_limit(c),
            key <= limit,
            start <= v@.len(),
            cnt(valid_in(c), 0, key_limit(c)) <= class_bound(c),
            counter as nat == cnt(valid_in(c), key as int, limit as int),
            v@.len() == start + counter,
            forall|i: int| 0 <= i < start ==> #[trigger] v@[i] == old(v)@[i],
            start == old(v)@.len(),
            distinct_products(v@),
            no_later_class(v@.take(start as int), c - 1),
            entries_from(v@, start as int, c, key as int, limit as int),
            forall|i: int| start <= i < v@.len() ==> is_pair_entry(#[trigger] v@[i]),
            forall|k: int|
                key <= k < limit && #[trigger] valid_key(c, k) ==> exists|i: int|
                    start <= i < v@.len() && v@[i].0 as int == key_product(c, k) && v@[i].1 as int
                        == key_ck(c, k),
        decreases key,
    {
        key -= 1;
        proof {
            lemma_entries_widen(v@, start as int, c, key as int, limit as int);
            lemma_cnt_split(valid_in(c), 0, key as int, limit as int);
            assert(count_above(c, key as int) == cnt(valid_in(c), key + 1, limit as int));
            assert(valid_in(c)(key as int) == valid_key(c, key as int));
        }
        if valid_key_exec(cat, key) {
            let product = key_product_exec(cat, key);
            let ck = base + counter;
            let ghost before = v@;
            proof {
                lemma_push_keeps_products(before, start as int, c, key as int, limit as int, product);
            }
            v.push((product, ck));
            proof {
                assert(v@ =~= before.push((product, ck)));
                assert(entries_from(before.push((product, ck)), start as int, c, key as int, limit as int));
                assert(distinct_products(before.push((product, ck))));
                assert(v@.take(start as int) =~= before.take(start as int));
                assert(is_pair_entry(v@[v@.len() - 1]));
                assert forall|k: int|
                    key <= k < limit && #[trigger] valid_key(c, k) implies exists|i: int|
                        start <= i < v@.len() && v@[i].0 as int == key_product(c, k) && v@[i].1
                            as int == key_ck(c, k) by {
                    if k == key {
                        assert(v@[v@.len() - 1].0 as int == key_product(c, k));
                    } else {
                        let i = choose|i: int|
                            start <= i < before.len() && before[i].0 as int == key_product(c, k)
                                && before[i].1 as int == key_ck(c, k);
                        assert(v@[i] == before[i]);
                    }
                }
            }
            counter += 1;
        }
    }
    proof {
        assert forall|i: int| start <= i < v@.len() implies class_product(c, #[trigger] v@[i].0 as int) by {
            assert(key_product_in(v@[i].0 as int, c, key as int, limit as int));
            let k = choose|k: int| key <= k < limit && valid_key(c, k) && v@[i].0 as int == key_product(c, k);
            assert(valid_key(c, k) && v@[i].0 as int == key_product(c, k));
        }
        assert(v@.take(start as int) =~= old(v)@);
    }
}

/// No entry's product is one of a class after `upto`.
pub open spec fn no_later_class(t: Seq<(u32, u16)>, upto: int) -> bool {
    forall|i: int, c: int|
        0 <= i < t.len() && upto < c <= 5 ==> !#[trigger] class_product(c, t[i].0 as int)
}

/// Appending entries of class `cat` to entries of the earlier classes.
proof fn lemma_no_later_extend(before: Seq<(u32, u16)>, after: Seq<(u32, u16)>, cat: int)
    requires
        1 <= cat <= 5,
        no_later_class(before, cat - 1),
        before.len() <= after.len(),
        forall|i: int| 0 <= i < before.len() ==> #[trigger] after[i] == before[i],
        forall|i: int| before.len() <= i < after.len() ==> class_product(cat, #[trigger] after[i].0 as int),
    ensures
        no_later_class(after, cat),
{
    assert forall|i: int, c: int| 0 <= i < after.len() && cat < c <= 5 implies !#[trigger] class_product(
        c,
        after[i].0 as int,
    ) by {
        if i < before.len() {
            assert(after[i] == before[i]);
        } else {
            assert(class_product(cat, after[i].0 as int));
            if class_product(c, after[i].0 as int) {
                lemma_class_product_unique(cat, c, after[i].0 as int);
            }
        }
    }
}

/// All paired hands (four of a kind, full house, three of a kind, two pair
/// and one pair) as (prime product, Cactus Kev rank) entries, class by class.
pub fn build_pairs_vec() -> (v: Vec<(u32, u16)>)
    ensures
        v@.len() == 4888,
        distinct_products(v@),
        forall|i: int| 0 <= i < v@.len() ==> is_pair_entry(#[trigger] v@[i]),
        forall|cat: int, key: int|
            1 <= cat <= 5 && #[trigger] valid_key(cat, key) ==> exists|i: int|
                0 <= i < v@.len() && v@[i].0 as int == key_product(cat, key) && v@[i].1 as int
                    == key_ck(cat, key),
{
    let mut v: Vec<(u32, u16)> = Vec::new();
    let ghost v0 = v@;
    push_class(&mut v, 1, 11);
    let ghost v1 = v@;
    proof {
        lemma_no_later_extend(v0, v@, 1);
    }
    push_class(&mut v, 2, 167);
    let ghost v2 = v@;
    proof {
        lemma_no_later_extend(v1, v@, 2);
    }
    push_class(&mut v, 3, 1610);
    let ghost v3 = v@;
    proof {
        lemma_no_later_extend(v2, v@, 3);
    }
    push_class(&mut v, 4, 2468);
    let ghost v4 = v@;
    proof {
        lemma_no_later_extend(v3, v@, 4);
    }
    push_class(&mut v, 5, 3326);
    proof {
        lemma_class_size(1);
        lemma_class_size(2);
        lemma_class_size(3);
        lemma_class_size(4);
        lemma_class_size(5);
        assert forall|cat: int, key: int|
            1 <= cat <= 5 && #[trigger] valid_key(cat, key) implies exists|i: int|
                0 <= i < v@.len() && v@[i].0 as int == key_product(cat, key) && v@[i].1 as int
                    == key_ck(cat, key) by {
            if cat == 1 {
                let i = choose|i: int|
                    0 <= i < v1.len() && v1[i].0 as int == key_product(cat, key) && v1[i].1 as int
                        == key_ck(cat, key);
                assert(v@[i] == v1[i]);
            } else if cat == 2 {
                let i = choose|i: int|
                    0 <= i < v2.len() && v2[i].0 as int == key_product(cat, key) && v2[i].1 as int
                        == key_ck(cat, key);
                assert(v@[i] == v2[i]);
            } else if cat == 3 {
                let i = choose|i: int|
                    0 <= i < v3.len() && v3[i].0 as int == key_product(cat, key) && v3[i].1 as int
                        == key_ck(cat, key);
                assert(v@[i] == v3[i]);
            } else if cat == 4 {
                let i = choose|i: int|
                    0 <= i < v4.len() && v4[i].0 as int == key_product(cat, key) && v4[i].1 as int
                        == key_ck(cat, key);
                assert(v@[i] == v4[i]);
            }
        }
    }
    v
}

/// Sorts by the prime product, with `slice::sort_unstable_by_key`: the
/// result holds the same entries, in non-decreasing product order.
#[verifier::external_body]
fn sort_by_product(v: &mut Vec<(u32, u16)>)
    ensures
        final(v)@.to_multiset() == old(v)@.to_multiset(),
        forall|i: int, j: int|
            0 <= i <= j < final(v)@.len() ==> final(v)@[i].0 <= final(v)@[j].0,
{
    v.sort_unstable_by_key(|e| e.0);
}

/// Whether the entries are in non-decreasing product order.
pub open spec fn sorted_by_product(t: Seq<(u32, u16)>) -> bool {
    forall|i: int, j: int| 0 <= i <= j < t.len() ==> t[i].0 <= t[j].0
}

/// Whether the entries are in strictly increasing product order.
pub open spec fn strictly_sorted_by_product(t: Seq<(u32, u16)>) -> bool {
    forall|i: int, j: int| 0 <= i < j < t.len() ==> t[i].0 < t[j].0
}

/// Whether `t` is a pairs table: sorted by product, every entry a paired
/// hand's, and every paired hand present.
pub open spec fn is_pairs_table(t: Seq<(u32, u16)>) -> bool {
    &&& sorted_by_product(t)
    &&& forall|i: int| 0 <= i < t.len() ==> is_pair_entry(#[trigger] t[i])
    &&& forall|cat: int, key: int|
        1 <= cat <= 5 && #[trigger] valid_key(cat, key) ==> exists|i: int|
            0 <= i < t.len() && t[i].0 as int == key_product(cat, key) && t[i].1 as int == key_ck(
                cat,
                key,
            )
}

/// The pairs table: every paired hand's (prime product, Cactus Kev rank),
/// sorted by product for binary search.
pub fn build_pairs_table() -> (t: Vec<(u32, u16)>)
    ensures
        t@.len() == 4888,
        is_pairs_table(t@),
        strictly_sorted_by_product(t@),
{
    let mut v = build_pairs_vec();
    let ghost before = v@;
    sort_by_product(&mut v);
    proof {
        broadcast use vstd::seq_lib::group_to_multiset_ensures;

        vstd::seq_lib::to_multiset_len(before);
        vstd::seq_lib::to_multiset_len(v@);
        assert(before.no_duplicates());
        before.lemma_multiset_has_no_duplicates();
        assert(forall|x: (u32, u16)| v@.to_multiset().contains(x) ==> v@.to_multiset().count(x) == 1);
        v@.lemma_multiset_has_no_duplicates_conv();

        assert forall|i: int| 0 <= i < v@.len() implies is_pair_entry(#[trigger] v@[i]) by {
            assert(v@.contains(v@[i]));
            assert(v@.to_multiset().count(v@[i]) > 0);
            assert(before.contains(v@[i]));
        }
        assert forall|cat: int, key: int|
            1 <= cat <= 5 && #[trigger] valid_key(cat, key) implies exists|i: int|
                0 <= i < v@.len() && v@[i].0 as int == key_product(cat, key) && v@[i].1 as int
                    == key_ck(cat, key) by {
            let j = choose|j: int|
                0 <= j < before.len() && before[j].0 as int == key_product(cat, key) && before[j].1
                    as int == key_ck(cat, key);
            assert(before.contains(before[j]));
            assert(v@.to_multiset().count(before[j]) > 0);
            assert(v@.contains(before[j]));
            let i = choose|i: int| 0 <= i < v@.len() && v@[i] == before[j];
        }
        assert forall|i: int, j: int| 0 <= i < j < v@.len() implies v@[i].0 < v@[j].0 by {
            if v@[i].0 == v@[j].0 {
                assert(is_pair_entry(v@[i]) && is_pair_entry(v@[j]));
                let (c1, k1) = choose|cat: int, key: int|
                    1 <= cat <= 5 && valid_key(cat, key) && v@[i].0 as int == key_product(cat, key)
                        && v@[i].1 as int == key_ck(cat, key);
                let (c2, k2) = choose|cat: int, key: int|
                    1 <= cat <= 5 && valid_key(cat, key) && v@[j].0 as int == key_product(cat, key)
                        && v@[j].1 as int == key_ck(cat, key);
                lemma_key_product_injective(c1, k1, c2, k2);
                assert(v@[i] == v@[j]);
            }
        }
    }
    v
}

/// Binary-search the pairs table for the given prime product and return its
/// Cactus Kev rank (the product must be present; an absent product is an
/// invalid hand, on which the table lookup would fail).
pub fn lookup_pairs(table: &[(u32, u16)], product: u32) -> (ck: u16)
    requires
        sorted_by_product(table@),
        exists|i: int| 0 <= i < table@.len() && table@[i].0 == product,
    ensures
        exists|i: int| 0 <= i < table@.len() && table@[i].0 == product && table@[i].1 == ck,
{
    let mut lo: usize = 0;
    let mut hi: usize = table.len();
    while hi - lo > 1
        invariant
            lo < hi <= table@.len(),
            sorted_by_product(table@),
            exists|i: int| lo <= i < hi && table@[i].0 == product,
        decreases hi - lo,
    {
        let mid = lo + (hi - lo) / 2;
        if table[mid].0 <= product {
            proof {
                let w = choose|i: int| lo <= i < hi && table@[i].0 == product;
                if w < mid {
                    assert(table@[w].0 <= table@[mid as int].0);
                    assert(table@[mid as int].0 == product);
                }
            }
            lo = mid;
        } else {
            proof {
                let w = choose|i: int| lo <= i < hi && table@[i].0 == product;
                if w >= mid {
                    assert(table@[mid as int].0 <= table@[w].0);
                }
            }
            hi = mid;
        }
    }
    proof {
        let w = choose|i: int| lo <= i < hi && table@[i].0 == product;
        assert(w == lo);
    }
    table[lo].1
}

/// Compute the rank bitmask of 5 cards (bit i = rank index i is present).
pub fn rank_mask_of(cards: &[Card; 5]) -> (m: u16)
    ensures
        m == rank_mask(hand_ranks(cards@)),
        m < 8192,
{
    let r0 = cards[0].rank.index() as u16;
    let r1 = cards[1].rank.index() as u16;
    let r2 = cards[2].rank.index() as u16;
    let r3 = cards[3].rank.index() as u16;
    let r4 = cards[4].rank.index() as u16;
    let m0: u16 = 0;
    let m = (((((m0 | (1u16 << r0)) | (1u16 << r1)) | (1u16 << r2)) | (1u16 << r3)) | (1u16
        << r4));
    proof {
        lemma_hand_ranks5(cards@);
        let rs = hand_ranks(cards@);
        let d1 = rs.drop_last();
        let d2 = d1.drop_last();
        let d3 = d2.drop_last();
        let d4 = d3.drop_last();
        let d5 = d4.drop_last();
        assert(rank_mask(d5) == 0);
        assert(rank_mask(d4) == rank_mask(d5) | (1u16 << (r0 as u16)));
        assert(rank_mask(d3) == rank_mask(d4) | (1u16 << (r1 as u16)));
        assert(rank_mask(d2) == rank_mask(d3) | (1u16 << (r2 as u16)));
        assert(rank_mask(d1) == rank_mask(d2) | (1u16 << (r3 as u16)));
        assert(rank_mask(rs) == rank_mask(d1) | (1u16 << (r4 as u16)));
        assert(r0 < 13 && r1 < 13 && r2 < 13 && r3 < 13 && r4 < 13 ==> (((((0u16 | (1u16 << r0))
            | (1u16 << r1)) | (1u16 << r2)) | (1u16 << r3)) | (1u16 << r4)) < 8192)
            by (bit_vector);
    }
    m
}

/// The rank indices of five cards, and the prefixes that `drop_last` gives.
proof fn lemma_hand_ranks5(h: Seq<Card>)
    requires
        h.len() == 5,
    ensures
        ({
            let rs = hand_ranks(h);
            &&& rs.len() == 5
            &&& rs == seq![
                h[0].rank.idx(),
                h[1].rank.idx(),
                h[2].rank.idx(),
                h[3].rank.idx(),
                h[4].rank.idx(),
            ]
            &&& rs.last() == h[4].rank.idx()
            &&& rs.drop_last().last() == h[3].rank.idx()
            &&& rs.drop_last().drop_last().last() == h[2].rank.idx()
            &&& rs.drop_last().drop_last().drop_last().last() == h[1].rank.idx()
            &&& rs.drop_last().drop_last().drop_last().drop_last().last() == h[0].rank.idx()
            &&& rs.drop_last().drop_last().drop_last().drop_last().drop_last().len() == 0
        }),
{
    let rs = hand_ranks(h);
    assert(rs =~= seq![
        h[0].rank.idx(),
        h[1].rank.idx(),
        h[2].rank.idx(),
        h[3].rank.idx(),
        h[4].rank.idx(),
    ]);
}

/// Check if all 5 cards share the same suit.
pub fn is_flush(cards: &[Card; 5]) -> (r: bool)
    ensures
        r == same_suit(cards@),
{
    let s = cards[0].suit;
    cards[1].suit == s && cards[2].suit == s && cards[3].suit == s && cards[4].suit == s
}

/// Compute the prime product of 5 card ranks.
pub fn prime_product(cards: &[Card; 5]) -> (p: u32)
    ensures
        p as int == prime_prod(hand_ranks(cards@)),
{
    let p0 = cards[0].rank.prime() as u64;
    let p1 = cards[1].rank.prime() as u64;
    let p2 = cards[2].rank.prime() as u64;
    let p3 = cards[3].rank.prime() as u64;
    let p4 = cards[4].rank.prime() as u64;
    proof {
        lemma_hand_ranks5(cards@);
        lemma_rank_prime_of(cards@[0].rank);
        lemma_rank_prime_of(cards@[1].rank);
        lemma_rank_prime_of(cards@[2].rank);
        lemma_rank_prime_of(cards@[3].rank);
        lemma_rank_prime_of(cards@[4].rank);
        assert(p0 * p1 <= 1681 && p0 * p1 * p2 <= 68921 && p0 * p1 * p2 * p3 <= 2825761 && p0 * p1
            * p2 * p3 * p4 <= 115856201) by (nonlinear_arith)
            requires
                p0 <= 41,
                p1 <= 41,
                p2 <= 41,
                p3 <= 41,
                p4 <= 41,
        ;
        let rs = hand_ranks(cards@);
        let d1 = rs.drop_last();
        let d2 = d1.drop_last();
        let d3 = d2.drop_last();
        let d4 = d3.drop_last();
        let d5 = d4.drop_last();
        assert(prime_prod(d5) == 1);
        assert(prime_prod(d4) == prime_prod(d5) * p0);
        assert(prime_prod(d3) == prime_prod(d4) * p1);
        assert(prime_prod(d2) == prime_prod(d3) * p2);
        assert(prime_prod(d1) == prime_prod(d2) * p3);
        assert(prime_prod(rs) == prime_prod(d1) * p4);
    }
    (p0 * p1 * p2 * p3 * p4) as u32
}

/// A rank's prime is the prime of its index.
pub proof fn lemma_rank_prime_of(r: crate::cards::card::Rank)
    ensures
        r.prime_of() == rank_prime(r.idx()),
        2 <= r.prime_of() <= 41,
{
}

} // verus!
