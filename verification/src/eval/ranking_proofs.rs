//! Proofs about rank multiplicities: how the class and key of a hand follow
//! from the multiplicities of its ranks, and that a paired key's ranks have
//! that class and key again.

use crate::bits::{bit, count_bits};
use crate::eval::counting::{lemma_shift_pow2, pow2i};
use crate::eval::primes::{all_ranks, lemma_prime_prod_remove, prime_prod};
use crate::eval::ranking::{
    counts_of, mask_seq, mask_with, mbit, num_with, rank_count, rank_mask, top_with, };
use vstd::multiset::Multiset;
use vstd::prelude::*;

verus! {

// ---------------------------------------------------------------------------
// Occurrence counts.

/// `rank_count` is the multiset count.
pub proof fn lemma_rank_count_multiset(s: Seq<int>, r: int)
    ensures
        rank_count(s, r) == s.to_multiset().count(r),
    decreases s.len(),
{
    if s.len() > 0 {
        lemma_rank_count_multiset(s.drop_last(), r);
        assert(s =~= s.drop_last().push(s.last()));
        vstd::seq_lib::to_multiset_build(s.drop_last(), s.last());
    } else {
        assert(s.to_multiset() =~= Multiset::empty()) by {
            broadcast use vstd::seq_lib::group_to_multiset_ensures;

        }
    }
}

/// Occurrences add up over a concatenation.
pub proof fn lemma_rank_count_concat(a: Seq<int>, b: Seq<int>, r: int)
    ensures
        rank_count(a + b, r) == rank_count(a, r) + rank_count(b, r),
    decreases b.len(),
{
    if b.len() == 0 {
        assert(a + b =~= a);
    } else {
        lemma_rank_count_concat(a, b.drop_last(), r);
        assert((a + b).drop_last() =~= a + b.drop_last());
    }
}

/// A mask's rank sequence holds each of its ranks below `n` once.
pub proof fn lemma_rank_count_mask_seq(m: int, n: int, r: int)
    ensures
        rank_count(mask_seq(m, n), r) == if 0 <= r < n && mbit(m, r) {
            1int
        } else {
            0int
        },
    decreases n,
{
    if n > 0 {
        lemma_rank_count_mask_seq(m, n - 1, r);
        if mbit(m, n - 1) {
            assert(mask_seq(m, n).drop_last() =~= mask_seq(m, n - 1));
        }
    }
}

/// Occurrences of the five ranks of a literal sequence.
pub proof fn lemma_rank_count5(a: int, b: int, c: int, d: int, e: int, r: int)
    ensures
        rank_count(seq![a, b, c, d, e], r) == (if a == r {
            1int
        } else {
            0int
        }) + (if b == r {
            1int
        } else {
            0int
        }) + (if c == r {
            1int
        } else {
            0int
        }) + (if d == r {
            1int
        } else {
            0int
        }) + (if e == r {
            1int
        } else {
            0int
        }),
{
    reveal_with_fuel(rank_count, 6);
    let s = seq![a, b, c, d, e];
    assert(s.drop_last() =~= seq![a, b, c, d]);
    assert(seq![a, b, c, d].drop_last() =~= seq![a, b, c]);
    assert(seq![a, b, c].drop_last() =~= seq![a, b]);
    assert(seq![a, b].drop_last() =~= seq![a]);
    assert(seq![a].drop_last() =~= Seq::<int>::empty());
}

/// Occurrences of the ranks of a short literal sequence.
pub proof fn lemma_rank_count_short(a: int, b: int, c: int, r: int)
    ensures
        rank_count(seq![a, b, c], r) == (if a == r {
            1int
        } else {
            0int
        }) + (if b == r {
            1int
        } else {
            0int
        }) + (if c == r {
            1int
        } else {
            0int
        }),
        rank_count(seq![a, b], r) == (if a == r {
            1int
        } else {
            0int
        }) + (if b == r {
            1int
        } else {
            0int
        }),
        rank_count(seq![a], r) == if a == r {
            1int
        } else {
            0int
        },
{
    reveal_with_fuel(rank_count, 4);
    assert(seq![a, b, c].drop_last() =~= seq![a, b]);
    assert(seq![a, b].drop_last() =~= seq![a]);
    assert(seq![a].drop_last() =~= Seq::<int>::empty());
}

/// Sequences with the same multiset have the same prime product.
pub proof fn lemma_prime_prod_multiset(s1: Seq<int>, s2: Seq<int>)
    requires
        s1.to_multiset() == s2.to_multiset(),
    ensures
        prime_prod(s1) == prime_prod(s2),
    decreases s1.len(),
{
    broadcast use vstd::seq_lib::group_to_multiset_ensures;

    if s1.len() == 0 {
        assert(s2.to_multiset().len() == 0);
        assert(s2.len() == 0);
    } else {
        let x = s1.last();
        let t1 = s1.drop_last();
        assert(s1 =~= t1.push(x));
        vstd::seq_lib::to_multiset_build(t1, x);
        assert(s2.to_multiset().count(x) > 0);
        assert(s2.contains(x));
        let j = choose|j: int| 0 <= j < s2.len() && s2[j] == x;
        vstd::seq_lib::to_multiset_remove(s2, j);
        let t2 = s2.remove(j);
        assert(t1.to_multiset() =~= t2.to_multiset());
        lemma_prime_prod_multiset(t1, t2);
        lemma_prime_prod_remove(s2, j);
    }
}

/// Sequences with equal counts of every rank have the same multiset.
pub proof fn lemma_counts_to_multiset(s1: Seq<int>, s2: Seq<int>)
    requires
        forall|r: int| #[trigger] rank_count(s1, r) == rank_count(s2, r),
    ensures
        s1.to_multiset() == s2.to_multiset(),
{
    assert forall|r: int| #[trigger] s1.to_multiset().count(r) == s2.to_multiset().count(r) by {
        lemma_rank_count_multiset(s1, r);
        lemma_rank_count_multiset(s2, r);
        assert(rank_count(s1, r) == rank_count(s2, r));
    }
    assert(s1.to_multiset() =~= s2.to_multiset());
}

/// Sequences with the same multiset have equal counts of every rank.
pub proof fn lemma_multiset_to_counts(s1: Seq<int>, s2: Seq<int>)
    requires
        s1.to_multiset() == s2.to_multiset(),
    ensures
        counts_of(s1) == counts_of(s2),
{
    assert forall|r: int| #[trigger] counts_of(s1)(r) == counts_of(s2)(r) by {
        lemma_rank_count_multiset(s1, r);
        lemma_rank_count_multiset(s2, r);
    }
    assert(counts_of(s1) =~= counts_of(s2));
}

// ---------------------------------------------------------------------------
// Bits of sums of powers of two.

/// Bit facts about words of at most 14 bits, bit-blasted once: adding `2^t`
/// to a word below `2^t`, and splitting a word below `2^(t+1)` at bit `t`.
proof fn lemma_word_bits(w: u64, v: u64, t: u64, i: u64)
    by (bit_vector)
    requires
        t < 14,
        i < 64,
    ensures
        1u64 <= (1u64 << t) <= 8192,
        w < (1u64 << t) ==> (w >> t) & 1 == 0,
        w < (1u64 << t) && t < i ==> (w >> i) & 1 == 0,
        w < (1u64 << t) && v == w + (1u64 << t) ==> (v >> t) & 1 == 1,
        w < (1u64 << t) && v == w + (1u64 << t) && i != t ==> (v >> i) & 1 == (w >> i) & 1,
        (w & (((1u64 << t) - 1u64) as u64)) < (1u64 << t),
        w < 2 * (1u64 << t) ==> w == (w & (((1u64 << t) - 1u64) as u64)) + if (w >> t) & 1 == 1 {
            1u64 << t
        } else {
            0u64
        },
        i < t ==> ((w & (((1u64 << t) - 1u64) as u64)) >> i) & 1 == (w >> i) & 1,
{
}

/// The low `t` bits of a word.
spec fn low_bits(m: int, t: int) -> int {
    (m as u64 & (((1u64 << (t as u64)) - 1) as u64)) as int
}

/// Adding `2^t` to a word below `2^t` sets bit `t` and keeps the others.
proof fn lemma_add_top_bit(x: int, t: int)
    requires
        0 <= t < 13,
        0 <= x < pow2i(t as nat),
    ensures
        forall|i: int| 0 <= i < 64 && i != t ==> #[trigger] mbit(x + pow2i(t as nat), i) == mbit(x, i),
        mbit(x + pow2i(t as nat), t),
        !mbit(x, t),
        forall|i: int| t < i < 64 ==> !#[trigger] mbit(x, i),
{
    let tt = t as u64;
    lemma_shift_pow2(tt);
    let w = x as u64;
    lemma_word_bits(w, w, tt, 0);
    let v = (x + pow2i(t as nat)) as u64;
    assert(v == w + (1u64 << tt));
    lemma_word_bits(w, v, tt, tt);
    assert forall|i: int| 0 <= i < 64 && i != t implies #[trigger] mbit(x + pow2i(t as nat), i)
        == mbit(x, i) by {
        lemma_word_bits(w, v, tt, i as u64);
    }
    assert forall|i: int| t < i < 64 implies !#[trigger] mbit(x, i) by {
        lemma_word_bits(w, v, tt, i as u64);
    }
}

/// Splitting a word below `2^(t+1)` into its low `t` bits and bit `t`.
proof fn lemma_split_top_bit(m: int, t: int)
    requires
        0 <= t < 13,
        0 <= m < 2 * pow2i(t as nat),
    ensures
        0 <= low_bits(m, t) < pow2i(t as nat),
        m == low_bits(m, t) + if mbit(m, t) {
            pow2i(t as nat)
        } else {
            0
        },
        forall|i: int| 0 <= i < t ==> #[trigger] mbit(low_bits(m, t), i) == mbit(m, i),
{
    let tt = t as u64;
    lemma_shift_pow2(tt);
    let w = m as u64;
    lemma_word_bits(w, w, tt, 0);
    assert forall|i: int| 0 <= i < t implies #[trigger] mbit(low_bits(m, t), i) == mbit(m, i) by {
        lemma_word_bits(w, w, tt, i as u64);
    }
}

// ---------------------------------------------------------------------------
// Counting, finding and collecting the ranks with a given multiplicity.

/// The mask of the ranks with multiplicity `c` has exactly those bits.
pub proof fn lemma_mask_with_bits(f: spec_fn(int) -> int, c: int, n: int)
    requires
        0 <= n <= 13,
    ensures
        0 <= mask_with(f, c, n) < pow2i(n as nat),
        forall|r: int| 0 <= r < n ==> #[trigger] mbit(mask_with(f, c, n), r) == (f(r) == c),
        forall|r: int| n <= r < 13 ==> !#[trigger] mbit(mask_with(f, c, n), r),
    decreases n,
{
    if n > 0 {
        let t = n - 1;
        lemma_mask_with_bits(f, c, t);
        let x = mask_with(f, c, t);
        lemma_shift_pow2(t as u64);
        lemma_shift_pow2(n as u64);
        assert(pow2i(n as nat) == 2 * pow2i(t as nat));
        lemma_add_top_bit(x, t);
        assert forall|r: int| n <= r < 13 implies !#[trigger] mbit(mask_with(f, c, n), r) by {
            assert(!mbit(x, r));
            if f(t) == c {
                assert(mask_with(f, c, n) == x + pow2i(t as nat));
                assert(mbit(x + pow2i(t as nat), r) == mbit(x, r));
            } else {
                assert(mask_with(f, c, n) == x);
            }
        }
    } else {
        assert forall|r: int| n <= r < 13 implies !#[trigger] mbit(mask_with(f, c, n), r) by {
            lemma_word_bits(0, 0, 0, r as u64);
        }
    }
}

/// Ranks with multiplicity `c` below `n`: as many as the bits of a mask that
/// holds exactly them.
pub proof fn lemma_num_with_mask(f: spec_fn(int) -> int, c: int, m: int, n: int)
    requires
        0 <= n <= 13,
        forall|r: int| 0 <= r < n ==> #[trigger] mbit(m, r) == (f(r) == c),
    ensures
        num_with(f, c, n) == count_bits(m as u64, n as nat),
    decreases n,
{
    if n > 0 {
        lemma_num_with_mask(f, c, m, n - 1);
        assert(mbit(m, n - 1) == (f(n - 1) == c));
    }
}

/// A mask below `2^n` with exactly the ranks of multiplicity `c` is the mask
/// of those ranks.
pub proof fn lemma_mask_with_eq(f: spec_fn(int) -> int, c: int, m: int, n: int)
    requires
        0 <= n <= 13,
        0 <= m < pow2i(n as nat),
        forall|r: int| 0 <= r < n ==> #[trigger] mbit(m, r) == (f(r) == c),
    ensures
        mask_with(f, c, n) == m,
    decreases n,
{
    if n > 0 {
        let t = n - 1;
        assert(pow2i(n as nat) == 2 * pow2i(t as nat));
        lemma_split_top_bit(m, t);
        let lo = low_bits(m, t);
        lemma_mask_with_eq(f, c, lo, t);
        assert(mbit(m, t) == (f(t) == c));
    } else {
        assert(pow2i(0) == 1);
    }
}

/// No rank below `n` has multiplicity `c`.
pub proof fn lemma_num_with_none(f: spec_fn(int) -> int, c: int, n: int)
    requires
        forall|r: int| 0 <= r < n ==> #[trigger] f(r) != c,
    ensures
        num_with(f, c, n) == 0,
    decreases n,
{
    if n > 0 {
        lemma_num_with_none(f, c, n - 1);
    }
}

/// No rank has multiplicity `c` when none is counted.
pub proof fn lemma_num_with_zero(f: spec_fn(int) -> int, c: int, n: int)
    requires
        num_with(f, c, n) == 0,
    ensures
        forall|r: int| 0 <= r < n ==> #[trigger] f(r) != c,
    decreases n,
{
    if n > 0 {
        assert(num_with(f, c, n - 1) >= 0) by {
            lemma_num_with_nonneg(f, c, n - 1);
        }
        lemma_num_with_zero(f, c, n - 1);
    }
}

/// Counts are not negative.
pub proof fn lemma_num_with_nonneg(f: spec_fn(int) -> int, c: int, n: int)
    ensures
        num_with(f, c, n) >= 0,
    decreases n,
{
    if n > 0 {
        lemma_num_with_nonneg(f, c, n - 1);
    }
}

/// When exactly one rank below `n` has multiplicity `c`, it is the top one.
pub proof fn lemma_num_with_one(f: spec_fn(int) -> int, c: int, n: int)
    requires
        num_with(f, c, n) == 1,
    ensures
        0 <= top_with(f, c, n) < n,
        f(top_with(f, c, n)) == c,
        forall|r: int| 0 <= r < n && #[trigger] f(r) == c ==> r == top_with(f, c, n),
    decreases n,
{
    lemma_num_with_nonneg(f, c, n - 1);
    if f(n - 1) == c {
        lemma_num_with_zero(f, c, n - 1);
    } else {
        lemma_num_with_one(f, c, n - 1);
    }
}

/// When exactly one rank below `n` has multiplicity `c`, namely `a`, the count
/// is one and `a` is the top one.
pub proof fn lemma_single_rank(f: spec_fn(int) -> int, c: int, a: int, n: int)
    requires
        0 <= a < n,
        forall|r: int| 0 <= r < n ==> (#[trigger] f(r) == c) == (r == a),
    ensures
        num_with(f, c, n) == 1,
        top_with(f, c, n) == a,
    decreases n,
{
    if n - 1 == a {
        lemma_num_with_none(f, c, n - 1);
    } else {
        lemma_single_rank(f, c, a, n - 1);
    }
}

/// The sum of the multiplicities of the ranks below `n`.
pub open spec fn sum_counts(f: spec_fn(int) -> int, n: int) -> int
    decreases n,
{
    if n <= 0 {
        0
    } else {
        sum_counts(f, n - 1) + f(n - 1)
    }
}

/// With multiplicities between 0 and 4, their sum weighs each multiplicity by
/// how many ranks have it.
pub proof fn lemma_sum_counts_weighted(f: spec_fn(int) -> int, n: int)
    requires
        forall|r: int| 0 <= r < n ==> 0 <= #[trigger] f(r) <= 4,
    ensures
        sum_counts(f, n) == num_with(f, 1, n) + 2 * num_with(f, 2, n) + 3 * num_with(f, 3, n) + 4
            * num_with(f, 4, n),
    decreases n,
{
    if n > 0 {
        lemma_sum_counts_weighted(f, n - 1);
    }
}

/// The ranks present in a mask: the ranks with multiplicity 1 to 4.
pub proof fn lemma_present_count(f: spec_fn(int) -> int, m: int, n: int)
    requires
        0 <= n <= 13,
        forall|r: int| 0 <= r < n ==> 0 <= #[trigger] f(r) <= 4,
        forall|r: int| 0 <= r < n ==> #[trigger] mbit(m, r) == (f(r) > 0),
    ensures
        count_bits(m as u64, n as nat) == num_with(f, 1, n) + num_with(f, 2, n) + num_with(f, 3, n)
            + num_with(f, 4, n),
    decreases n,
{
    if n > 0 {
        lemma_present_count(f, m, n - 1);
        assert(mbit(m, n - 1) == (f(n - 1) > 0));
    }
}

/// Multiplicities of a rank sequence add up to its length, and vanish off
/// the ranks.
pub proof fn lemma_sum_counts_len(rs: Seq<int>)
    requires
        all_ranks(rs),
    ensures
        sum_counts(counts_of(rs), 13) == rs.len(),
        forall|r: int| (r < 0 || 13 <= r) ==> #[trigger] rank_count(rs, r) == 0,
    decreases rs.len(),
{
    if rs.len() > 0 {
        let t = rs.drop_last();
        assert(all_ranks(t)) by {
            assert forall|i: int| 0 <= i < t.len() implies 0 <= #[trigger] t[i] < 13 by {
                assert(t[i] == rs[i]);
            }
        }
        lemma_sum_counts_len(t);
        let x = rs.last();
        assert(0 <= x < 13);
        assert forall|r: int| #[trigger] counts_of(rs)(r) == counts_of(t)(r) + if r == x {
            1int
        } else {
            0int
        } by {
            assert(rank_count(rs, r) == rank_count(t, r) + if x == r {
                1int
            } else {
                0int
            });
        }
        lemma_sum_counts_add(counts_of(t), counts_of(rs), x, 13);
        assert forall|r: int| (r < 0 || 13 <= r) implies #[trigger] rank_count(rs, r) == 0 by {
            assert(rank_count(rs, r) == rank_count(t, r) + if x == r {
                1int
            } else {
                0int
            });
        }
    } else {
        lemma_sum_counts_zero(counts_of(rs), 13);
    }
}

/// The sum of multiplicities that are all zero.
proof fn lemma_sum_counts_zero(f: spec_fn(int) -> int, n: int)
    requires
        forall|r: int| #[trigger] f(r) == 0,
    ensures
        sum_counts(f, n) == 0,
    decreases n,
{
    if n > 0 {
        lemma_sum_counts_zero(f, n - 1);
        assert(f(n - 1) == 0);
    }
}

/// Adding one occurrence of rank `x < n` adds one to the sum below `n`.
proof fn lemma_sum_counts_add(f: spec_fn(int) -> int, g: spec_fn(int) -> int, x: int, n: int)
    requires
        forall|r: int| #[trigger] g(r) == f(r) + if r == x {
            1int
        } else {
            0int
        },
    ensures
        sum_counts(g, n) == sum_counts(f, n) + if 0 <= x < n {
            1int
        } else {
            0int
        },
    decreases n,
{
    if n > 0 {
        lemma_sum_counts_add(f, g, x, n - 1);
        assert(g(n - 1) == f(n - 1) + if n - 1 == x {
            1int
        } else {
            0int
        });
    }
}

/// Multiplicities are not negative.
pub proof fn lemma_rank_count_nonneg(s: Seq<int>, r: int)
    ensures
        rank_count(s, r) >= 0,
    decreases s.len(),
{
    if s.len() > 0 {
        lemma_rank_count_nonneg(s.drop_last(), r);
    }
}

/// A rank occurs in the rank mask exactly when it occurs in the sequence.
pub proof fn lemma_rank_mask_bits(rs: Seq<int>)
    requires
        all_ranks(rs),
    ensures
        (rank_mask(rs) as int) < 8192,
        forall|r: int| 0 <= r < 13 ==> #[trigger] mbit(rank_mask(rs) as int, r) == (rank_count(rs, r)
            > 0),
    decreases rs.len(),
{
    if rs.len() == 0 {
        assert forall|r: int| 0 <= r < 13 implies #[trigger] mbit(rank_mask(rs) as int, r) == (
        rank_count(rs, r) > 0) by {
            let rr = r as u64;
            assert((0u64 >> rr) & 1 == 0) by (bit_vector);
        }
    } else {
        let t = rs.drop_last();
        assert(all_ranks(t)) by {
            assert forall|i: int| 0 <= i < t.len() implies 0 <= #[trigger] t[i] < 13 by {
                assert(t[i] == rs[i]);
            }
        }
        lemma_rank_mask_bits(t);
        let x = rs.last() as u16;
        let a = rank_mask(t);
        assert(0 <= rs.last() < 13);
        assert(a < 8192 && x < 13 ==> (a | (1u16 << x)) < 8192) by (bit_vector);
        assert forall|r: int| 0 <= r < 13 implies #[trigger] mbit(rank_mask(rs) as int, r) == (
        rank_count(rs, r) > 0) by {
            let rr = r as u64;
            lemma_rank_count_nonneg(t, r);
            assert(rank_mask(rs) == a | (1u16 << x));
            assert(rank_count(rs, r) == rank_count(t, r) + if rs.last() == r {
                1int
            } else {
                0int
            });
            assert(mbit(a as int, r) == (rank_count(t, r) > 0));
            assert(x < 13 && rr < 13 ==> ((((a | (1u16 << x)) as u64) >> rr) & 1 == 1) == (((a as u64
                >> rr) & 1 == 1) || rr == x as u64)) by (bit_vector);
        }
    }
}

} // verus!
