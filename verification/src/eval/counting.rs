//! Counting the integers of a range that satisfy a predicate, and the
//! number of `n`-bit words with `k` set bits.

use crate::bits::{bit, count_bits};
use vstd::prelude::*;

verus! {

/// Number of integers `x` in `lo..hi` with `p(x)`.
pub open spec fn cnt(p: spec_fn(int) -> bool, lo: int, hi: int) -> nat
    decreases hi - lo,
{
    if lo >= hi {
        0
    } else {
        (if p(lo) {
            1nat
        } else {
            0nat
        }) + cnt(p, lo + 1, hi)
    }
}

/// `2` to the power `n`.
pub open spec fn pow2i(n: nat) -> int
    decreases n,
{
    if n == 0 {
        1
    } else {
        2 * pow2i((n - 1) as nat)
    }
}

/// The binomial coefficient `n` choose `k`.
pub open spec fn binom(n: nat, k: nat) -> nat
    decreases n,
{
    if k == 0 {
        1
    } else if n == 0 {
        0
    } else {
        binom((n - 1) as nat, (k - 1) as nat) + binom((n - 1) as nat, k)
    }
}

/// A count over `lo..hi` is the count over `lo..mid` plus the count over `mid..hi`.
pub proof fn lemma_cnt_split(p: spec_fn(int) -> bool, lo: int, mid: int, hi: int)
    requires
        lo <= mid <= hi,
    ensures
        cnt(p, lo, hi) == cnt(p, lo, mid) + cnt(p, mid, hi),
    decreases mid - lo,
{
    if lo < mid {
        lemma_cnt_split(p, lo + 1, mid, hi);
    }
}

/// A count never exceeds the length of the range.
pub proof fn lemma_cnt_le_len(p: spec_fn(int) -> bool, lo: int, hi: int)
    requires
        lo <= hi,
    ensures
        cnt(p, lo, hi) <= hi - lo,
    decreases hi - lo,
{
    if lo < hi {
        lemma_cnt_le_len(p, lo + 1, hi);
    }
}

/// Counting a weaker predicate counts at least as many.
pub proof fn lemma_cnt_mono(p: spec_fn(int) -> bool, q: spec_fn(int) -> bool, lo: int, hi: int)
    requires
        forall|x: int| lo <= x < hi && #[trigger] p(x) ==> q(x),
    ensures
        cnt(p, lo, hi) <= cnt(q, lo, hi),
    decreases hi - lo,
{
    if lo < hi {
        lemma_cnt_mono(p, q, lo + 1, hi);
    }
}

/// Counts of two predicates that agree on the range are equal.
pub proof fn lemma_cnt_ext(p: spec_fn(int) -> bool, q: spec_fn(int) -> bool, lo: int, hi: int)
    requires
        forall|x: int| lo <= x < hi ==> #[trigger] p(x) == q(x),
    ensures
        cnt(p, lo, hi) == cnt(q, lo, hi),
    decreases hi - lo,
{
    if lo < hi {
        lemma_cnt_ext(p, q, lo + 1, hi);
    }
}

/// Shifting the range shifts the predicate.
pub proof fn lemma_cnt_shift(
    p: spec_fn(int) -> bool,
    q: spec_fn(int) -> bool,
    lo: int,
    hi: int,
    d: int,
)
    requires
        forall|x: int| lo <= x < hi ==> #[trigger] q(x) == p(x + d),
    ensures
        cnt(q, lo, hi) == cnt(p, lo + d, hi + d),
    decreases hi - lo,
{
    if lo < hi {
        lemma_cnt_shift(p, q, lo + 1, hi, d);
        assert(q(lo) == p(lo + d));
    }
}

/// If `p(x)` implies `q(x % b)` on `0..n*b`, then `p` holds at most `n` times
/// as often there as `q` on `0..b`.
pub proof fn lemma_cnt_blocks_mod(p: spec_fn(int) -> bool, q: spec_fn(int) -> bool, n: int, b: int)
    requires
        b > 0,
        n >= 0,
        forall|x: int| 0 <= x < n * b && #[trigger] p(x) ==> q(x % b),
    ensures
        cnt(p, 0, n * b) <= n * cnt(q, 0, b),
    decreases n,
{
    if n > 0 {
        let m = n - 1;
        assert(m * b + b == n * b) by (nonlinear_arith)
            requires
                m == n - 1,
        ;
        assert(0 <= m * b) by (nonlinear_arith)
            requires
                m >= 0,
                b > 0,
        ;
        assert forall|x: int| 0 <= x < m * b && #[trigger] p(x) implies q(x % b) by {
        }
        lemma_cnt_blocks_mod(p, q, m, b);
        lemma_cnt_split(p, 0, m * b, n * b);
        let shifted = |y: int| p(y + m * b);
        lemma_cnt_shift(p, shifted, 0, b, m * b);
        assert forall|y: int| 0 <= y < b && #[trigger] shifted(y) implies q(y) by {
            let x = y + m * b;
            assert(p(x));
            vstd::arithmetic::div_mod::lemma_fundamental_div_mod_converse(
                x,
                b,
                m,
                y,
            );
        }
        lemma_cnt_mono(shifted, q, 0, b);
        assert(m * cnt(q, 0, b) + cnt(q, 0, b) == n * cnt(q, 0, b))
            by (nonlinear_arith)
            requires
                m == n - 1,
        ;
    } else {
        assert(n * b == 0 && n * cnt(q, 0, b) == 0) by (nonlinear_arith)
            requires
                n == 0,
        ;
    }
}

/// If `p(x)` implies `q(x / b)` on `0..n*b`, then `p` holds at most `b` times
/// as often there as `q` on `0..n`.
pub proof fn lemma_cnt_blocks_div(p: spec_fn(int) -> bool, q: spec_fn(int) -> bool, n: int, b: int)
    requires
        b > 0,
        n >= 0,
        forall|x: int| 0 <= x < n * b && #[trigger] p(x) ==> q(x / b),
    ensures
        cnt(p, 0, n * b) <= b * cnt(q, 0, n),
    decreases n,
{
    if n > 0 {
        let m = n - 1;
        assert(m * b + b == n * b) by (nonlinear_arith)
            requires
                m == n - 1,
        ;
        assert(0 <= m * b) by (nonlinear_arith)
            requires
                m >= 0,
                b > 0,
        ;
        lemma_cnt_blocks_div(p, q, m, b);
        lemma_cnt_split(p, 0, m * b, n * b);
        lemma_cnt_split(q, 0, m, n);
        let shifted = |y: int| p(y + m * b);
        lemma_cnt_shift(p, shifted, 0, b, m * b);
        if q(m) {
            lemma_cnt_le_len(shifted, 0, b);
        } else {
            let never = |y: int| false;
            assert forall|y: int| 0 <= y < b && #[trigger] shifted(y) implies never(y) by {
                let x = y + m * b;
                vstd::arithmetic::div_mod::lemma_fundamental_div_mod_converse(
                    x,
                    b,
                    m,
                    y,
                );
            }
            lemma_cnt_mono(shifted, never, 0, b);
            lemma_cnt_never(0, b);
        }
        assert(cnt(q, m + 1, n) == 0);
        assert(cnt(q, m, n) == if q(m) {
            1nat
        } else {
            0nat
        });
        assert(b * cnt(q, 0, m) + b * cnt(q, m, n) == b * cnt(q, 0, n))
            by (nonlinear_arith)
            requires
                cnt(q, 0, n) == cnt(q, 0, m) + cnt(q, m, n),
        ;
    } else {
        assert(n * b == 0) by (nonlinear_arith)
            requires
                n == 0,
        ;
    }
}

/// Nothing satisfies the predicate that is always false.
pub proof fn lemma_cnt_never(lo: int, hi: int)
    ensures
        cnt(|y: int| false, lo, hi) == 0,
    decreases hi - lo,
{
    if lo < hi {
        lemma_cnt_never(lo + 1, hi);
    }
}

/// `1 << n` is `2` to the power `n`.
pub proof fn lemma_shift_pow2(n: u64)
    requires
        n < 64,
    ensures
        (1u64 << n) as int == pow2i(n as nat),
    decreases n,
{
    if n > 0 {
        lemma_shift_pow2((n - 1) as u64);
        assert(0 < n && n < 64 ==> 1u64 << n == 2 * (1u64 << ((n - 1) as u64))) by (bit_vector);
    } else {
        assert(1u64 << 0u64 == 1) by (bit_vector);
    }
}

/// Words whose bits agree below `j` have as many set bits below `j`.
pub proof fn lemma_count_bits_agree(a: u64, b: u64, j: nat)
    requires
        forall|i: u64| (i as nat) < j ==> #[trigger] bit(a, i) == bit(b, i),
    ensures
        count_bits(a, j) == count_bits(b, j),
    decreases j,
{
    if j > 0 {
        assert(bit(a, (j - 1) as u64) == bit(b, (j - 1) as u64));
        lemma_count_bits_agree(a, b, (j - 1) as nat);
    }
}

/// The words below `2^n` with `k` set bits are `n` choose `k` many.
pub proof fn lemma_cnt_popcount(n: nat, k: nat)
    requires
        n <= 20,
    ensures
        cnt(|m: int| count_bits(m as u64, n) == k, 0, pow2i(n)) == binom(n, k),
    decreases n,
{
    let pk = |m: int| count_bits(m as u64, n) == k;
    if n == 0 {
        assert(cnt(pk, 1, 1) == 0);
        assert(cnt(pk, 0, 1) == if pk(0) { 1nat } else { 0nat });
    } else {
        let n1 = (n - 1) as nat;
        let h = pow2i(n1);
        lemma_shift_pow2(n1 as u64);
        lemma_shift_pow2(n as u64);
        assert(pow2i(n) == 2 * h);
        lemma_cnt_split(pk, 0, h, 2 * h);
        // Lower half: the top bit is clear.
        let lower = |m: int| count_bits(m as u64, n1) == k;
        assert forall|m: int| 0 <= m < h implies #[trigger] pk(m) == lower(m) by {
            let w = m as u64;
            let t = n1 as u64;
            assert(t < 63 && (w as int) < (1u64 << t) as int ==> (w >> t) & 1 == 0) by (bit_vector);
        }
        lemma_cnt_ext(pk, lower, 0, h);
        lemma_cnt_popcount(n1, k);
        // Upper half: the top bit is set and the rest is `m - h`.
        if k == 0 {
            let never = |y: int| false;
            assert forall|m: int| h <= m < 2 * h && #[trigger] pk(m) implies never(m) by {
                let w = m as u64;
                let t = n1 as u64;
                assert(t < 63 && (1u64 << t) as int <= (w as int) && (w as int) < 2 * ((1u64 << t) as int) ==> (w >> t) & 1 == 1)
                    by (bit_vector);
            }
            lemma_cnt_mono(pk, never, h, 2 * h);
            lemma_cnt_never(h, 2 * h);
        } else {
            let k1 = (k - 1) as nat;
            let upper = |y: int| count_bits(y as u64, n1) == k1;
            assert forall|y: int| 0 <= y < h implies #[trigger] upper(y) == pk(y + h) by {
                let w = (y + h) as u64;
                let v = y as u64;
                let t = n1 as u64;
                assert(t < 63 && (v as int) < (1u64 << t) as int && w == v + (1u64 << t) ==> (w
                    >> t) & 1 == 1) by (bit_vector);
                assert forall|i: u64| (i as nat) < n1 implies #[trigger] bit(w, i) == bit(v, i) by {
                    assert(t < 63 && i < t && (v as int) < (1u64 << t) as int && w == v + (1u64
                        << t) ==> ((w >> i) & 1 == 1) == ((v >> i) & 1 == 1)) by (bit_vector);
                }
                lemma_count_bits_agree(w, v, n1);
            }
            lemma_cnt_shift(pk, upper, 0, h, h);
            lemma_cnt_popcount(n1, k1);
        }
    }
}

/// The words below `2^n` with `k` set bits and bit `t` clear are `n - 1`
/// choose `k` many.
pub proof fn lemma_cnt_popcount_avoid(n: nat, k: nat, t: nat)
    requires
        1 <= n <= 20,
        t < n,
    ensures
        cnt(|m: int| count_bits(m as u64, n) == k && !bit(m as u64, t as u64), 0, pow2i(n))
            == binom((n - 1) as nat, k),
    decreases n,
{
    let pk = |m: int| count_bits(m as u64, n) == k && !bit(m as u64, t as u64);
    let n1 = (n - 1) as nat;
    let h = pow2i(n1);
    lemma_shift_pow2(n1 as u64);
    lemma_shift_pow2(n as u64);
    assert(pow2i(n) == 2 * h);
    lemma_cnt_split(pk, 0, h, 2 * h);
    let tt = t as u64;
    let top = n1 as u64;
    // Below `h` the top bit is clear: the count over `n - 1` bits.
    assert forall|m: int| 0 <= m < h implies #[trigger] pk(m) == (count_bits(m as u64, n1) == k
        && !bit(m as u64, tt)) by {
        let w = m as u64;
        assert(top < 63 && (w as int) < (1u64 << top) as int ==> (w >> top) & 1 == 0) by (bit_vector);
    }
    if t == n1 {
        // Bit `t` is the top bit: it is clear exactly in the lower half.
        let lower = |m: int| count_bits(m as u64, n1) == k;
        assert forall|m: int| 0 <= m < h implies #[trigger] pk(m) == lower(m) by {
            let w = m as u64;
            assert(top < 63 && (w as int) < (1u64 << top) as int ==> (w >> top) & 1 == 0) by (bit_vector);
        }
        lemma_cnt_ext(pk, lower, 0, h);
        lemma_cnt_popcount(n1, k);
        let never = |y: int| false;
        assert forall|m: int| h <= m < 2 * h && #[trigger] pk(m) implies never(m) by {
            let w = m as u64;
            assert(top < 63 && (1u64 << top) as int <= (w as int) && (w as int) < 2 * ((1u64 << top) as int) ==> (w >> top) & 1 == 1)
                by (bit_vector);
        }
        lemma_cnt_mono(pk, never, h, 2 * h);
        lemma_cnt_never(h, 2 * h);
    } else {
        let lower = |m: int| count_bits(m as u64, n1) == k && !bit(m as u64, tt);
        lemma_cnt_ext(pk, lower, 0, h);
        lemma_cnt_popcount_avoid(n1, k, t);
        if k == 0 {
            let never = |y: int| false;
            assert forall|m: int| h <= m < 2 * h && #[trigger] pk(m) implies never(m) by {
                let w = m as u64;
                assert(top < 63 && (1u64 << top) as int <= (w as int) && (w as int) < 2 * ((1u64 << top) as int) ==> (w >> top) & 1 == 1)
                    by (bit_vector);
            }
            lemma_cnt_mono(pk, never, h, 2 * h);
            lemma_cnt_never(h, 2 * h);
            lemma_binom_k0((n1 - 1) as nat);
            lemma_binom_k0(n1);
        } else {
            let k1 = (k - 1) as nat;
            let upper = |y: int| count_bits(y as u64, n1) == k1 && !bit(y as u64, tt);
            assert forall|y: int| 0 <= y < h implies #[trigger] upper(y) == pk(y + h) by {
                let w = (y + h) as u64;
                let v = y as u64;
                assert(top < 63 && (v as int) < (1u64 << top) as int && w == v + (1u64 << top) ==> (w
                    >> top) & 1 == 1) by (bit_vector);
                assert forall|i: u64| (i as nat) < n1 implies #[trigger] bit(w, i) == bit(v, i) by {
                    assert(top < 63 && i < top && (v as int) < (1u64 << top) as int && w == v + (1u64
                        << top) ==> ((w >> i) & 1 == 1) == ((v >> i) & 1 == 1)) by (bit_vector);
                }
                lemma_count_bits_agree(w, v, n1);
                assert(bit(w, tt) == bit(v, tt));
            }
            lemma_cnt_shift(pk, upper, 0, h, h);
            lemma_cnt_popcount_avoid(n1, k1, t);
            assert(binom(n1, k) == binom((n1 - 1) as nat, k1) + binom((n1 - 1) as nat, k));
        }
    }
}

/// `n` choose 0 is one.
proof fn lemma_binom_k0(n: nat)
    ensures
        binom(n, 0) == 1,
{
}

/// If each of `n` blocks of width `b` holds exactly `c` points of `p`, then
/// `0..n*b` holds `n * c`.
pub proof fn lemma_cnt_blocks_exact(p: spec_fn(int) -> bool, n: int, b: int, c: int)
    requires
        b > 0,
        n >= 0,
        forall|i: int| 0 <= i < n ==> #[trigger] cnt(p, i * b, i * b + b) == c,
    ensures
        cnt(p, 0, n * b) == n * c,
    decreases n,
{
    if n > 0 {
        let m = n - 1;
        assert(m * b + b == n * b) by (nonlinear_arith)
            requires
                m == n - 1,
        ;
        assert(0 <= m * b) by (nonlinear_arith)
            requires
                m >= 0,
                b > 0,
        ;
        lemma_cnt_blocks_exact(p, m, b, c);
        lemma_cnt_split(p, 0, m * b, n * b);
        assert(cnt(p, m * b, m * b + b) == c);
        assert(m * c + c == n * c) by (nonlinear_arith)
            requires
                m == n - 1,
        ;
    } else {
        assert(n * b == 0 && n * c == 0) by (nonlinear_arith)
            requires
                n == 0,
        ;
    }
}

/// Positions below `n` whose bit is set in `x` number the set bits of `x`
/// below `n`.
pub proof fn lemma_cnt_bits(x: u64, n: nat)
    requires
        n <= 64,
    ensures
        cnt(|i: int| bit(x, i as u64), 0, n as int) == count_bits(x, n),
    decreases n,
{
    if n > 0 {
        let n1 = (n - 1) as nat;
        lemma_cnt_bits(x, n1);
        lemma_cnt_split(|i: int| bit(x, i as u64), 0, n1 as int, n as int);
        assert(cnt(|i: int| bit(x, i as u64), n1 as int + 1, n as int) == 0);
    }
}

/// The binomial coefficients the evaluator relies on.
pub proof fn lemma_binom_13()
    ensures
        binom(13, 2) == 78,
        binom(13, 3) == 286,
        binom(13, 5) == 1287,
{
    reveal_with_fuel(binom, 20);
    assert(binom(13, 2) == 78);
    assert(binom(13, 3) == 286);
    assert(binom(13, 5) == 1287);
}

/// No subsets larger than the set.
pub proof fn lemma_binom_zero(n: nat, k: nat)
    requires
        k > n,
    ensures
        binom(n, k) == 0,
    decreases n,
{
    if n > 0 {
        lemma_binom_zero((n - 1) as nat, (k - 1) as nat);
        lemma_binom_zero((n - 1) as nat, k);
    }
}

/// One subset of all the elements.
pub proof fn lemma_binom_all(n: nat)
    ensures
        binom(n, n) == 1,
    decreases n,
{
    if n > 0 {
        lemma_binom_all((n - 1) as nat);
        lemma_binom_zero((n - 1) as nat, n);
    }
}

/// The algebra of the absorption step.
proof fn lemma_absorb_algebra(k: int, n: int, a: int, b: int, c: int, d: int, e: int)
    by (nonlinear_arith)
    requires
        a == b + c,
        (k + 1) * c == n * d,
        k * b == n * e,
        b == e + d,
    ensures
        (k + 1) * a == (n + 1) * b,
{
}

/// The algebra of the multiplicative step.
proof fn lemma_step_algebra(i: int, n: int, b: int, c: int, d: int, e: int)
    by (nonlinear_arith)
    requires
        (i + 1) * c == n * d,
        i * b == n * e,
        b == e + d,
    ensures
        c * (i + 1) == b * (n - i),
{
}

/// Absorption: `(k + 1) * C(n + 1, k + 1) == (n + 1) * C(n, k)`.
pub proof fn lemma_binom_absorb(n: nat, k: nat)
    ensures
        (k + 1) * binom(n + 1, k + 1) == (n + 1) * binom(n, k),
    decreases n,
{
    assert(binom(n + 1, k + 1) == binom(n, k) + binom(n, k + 1));
    if n == 0 {
        if k > 0 {
            lemma_binom_zero(0, k);
            lemma_binom_zero(0, k + 1);
            lemma_binom_zero(1, k + 1);
        } else {
            assert(binom(0, 1) == 0);
        }
    } else {
        let m = (n - 1) as nat;
        assert(m + 1 == n);
        lemma_binom_absorb(m, k);
        if k == 0 {
            assert(binom(m, 0) == 1 && binom(n, 0) == 1);
            lemma_absorb_algebra(0, n as int, binom(n + 1, 1) as int, 1, binom(n, 1) as int, 1, 0);
        } else {
            let j = (k - 1) as nat;
            assert(j + 1 == k);
            lemma_binom_absorb(m, j);
            assert(binom(n, k) == binom(m, j) + binom(m, k));
            lemma_absorb_algebra(
                k as int,
                n as int,
                binom(n + 1, k + 1) as int,
                binom(n, k) as int,
                binom(n, k + 1) as int,
                binom(m, k) as int,
                binom(m, j) as int,
            );
        }
    }
}

/// The step of the multiplicative formula:
/// `C(n, i + 1) * (i + 1) == C(n, i) * (n - i)`.
pub proof fn lemma_binom_step(n: nat, i: nat)
    requires
        i < n,
    ensures
        binom(n, i + 1) * (i + 1) == binom(n, i) * (n - i),
{
    let m = (n - 1) as nat;
    assert(m + 1 == n);
    lemma_binom_absorb(m, i);
    if i == 0 {
        assert(binom(n, 0) == 1 && binom(m, 0) == 1);
        lemma_step_algebra(0, n as int, 1, binom(n, 1) as int, 1, 0);
    } else {
        let j = (i - 1) as nat;
        assert(j + 1 == i);
        lemma_binom_absorb(m, j);
        assert(binom(n, i) == binom(m, j) + binom(m, i));
        lemma_step_algebra(
            i as int,
            n as int,
            binom(n, i) as int,
            binom(n, i + 1) as int,
            binom(m, i) as int,
            binom(m, j) as int,
        );
    }
}

/// Choosing `k` is choosing the `n - k` left out.
pub proof fn lemma_binom_symmetric(n: nat, k: nat)
    requires
        k <= n,
    ensures
        binom(n, k) == binom(n, (n - k) as nat),
    decreases n,
{
    if k == 0 {
        lemma_binom_all(n);
    } else if k == n {
        lemma_binom_all(n);
    } else {
        let m = (n - 1) as nat;
        lemma_binom_symmetric(m, (k - 1) as nat);
        lemma_binom_symmetric(m, k);
        assert(binom(n, (n - k) as nat) == binom(m, (n - k - 1) as nat) + binom(m, (n - k) as nat));
    }
}

/// A binomial coefficient is at most `2^n`.
pub proof fn lemma_binom_le_pow2(n: nat, k: nat)
    ensures
        binom(n, k) <= pow2i(n),
    decreases n,
{
    if n > 0 && k > 0 {
        lemma_binom_le_pow2((n - 1) as nat, (k - 1) as nat);
        lemma_binom_le_pow2((n - 1) as nat, k);
    } else if n > 0 {
        lemma_binom_le_pow2((n - 1) as nat, 0);
    } else if k > 0 {
        lemma_binom_zero(n, k);
    }
}

} // verus!
