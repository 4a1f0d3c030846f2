//! The thirteen rank primes and unique factorisation of their products:
//! the prime product of a hand's ranks determines how often each rank occurs.

use vstd::arithmetic::div_mod::{
    lemma_fundamental_div_mod, lemma_mod_multiples_basic, lemma_mod_pos_bound,
    lemma_mul_mod_noop_general, lemma_small_mod,
};
use vstd::prelude::*;

verus! {

/// The prime of the rank with index `i` (Two = 2, ..., Ace = 41).
pub open spec fn rank_prime(i: int) -> int {
    if i == 0 {
        2
    } else if i == 1 {
        3
    } else if i == 2 {
        5
    } else if i == 3 {
        7
    } else if i == 4 {
        11
    } else if i == 5 {
        13
    } else if i == 6 {
        17
    } else if i == 7 {
        19
    } else if i == 8 {
        23
    } else if i == 9 {
        29
    } else if i == 10 {
        31
    } else if i == 11 {
        37
    } else {
        41
    }
}

/// Product of the rank primes of the rank indices in `s`.
pub open spec fn prime_prod(s: Seq<int>) -> int
    decreases s.len(),
{
    if s.len() == 0 {
        1
    } else {
        prime_prod(s.drop_last()) * rank_prime(s.last())
    }
}

/// Whether every element of `s` is a rank index.
pub open spec fn all_ranks(s: Seq<int>) -> bool {
    forall|i: int| 0 <= i < s.len() ==> 0 <= #[trigger] s[i] < 13
}

/// `p` has no divisor in `lo..hi`.
pub open spec fn no_divisor_in(p: int, lo: int, hi: int) -> bool
    decreases hi - lo,
{
    if lo >= hi {
        true
    } else {
        p % lo != 0 && no_divisor_in(p, lo + 1, hi)
    }
}

/// `p` is prime.
pub open spec fn is_prime(p: int) -> bool {
    p > 1 && forall|d: int| 1 < d < p ==> #[trigger] (p % d) != 0
}

proof fn lemma_no_divisor_in(p: int, lo: int, hi: int)
    requires
        2 <= lo,
        no_divisor_in(p, lo, hi),
    ensures
        forall|d: int| lo <= d < hi ==> #[trigger] (p % d) != 0,
    decreases hi - lo,
{
    if lo < hi {
        lemma_no_divisor_in(p, lo + 1, hi);
    }
}

/// Every rank prime is prime.
pub proof fn lemma_rank_prime_is_prime(i: int)
    requires
        0 <= i < 13,
    ensures
        is_prime(rank_prime(i)),
{
    let p = rank_prime(i);
    assert(no_divisor_in(p, 2, p)) by {
        reveal_with_fuel(no_divisor_in, 41);
    }
    lemma_no_divisor_in(p, 2, p);
}

/// A prime leaves no zero divisors: the product of two non-multiples of `p`
/// is not a multiple of `p`.
proof fn lemma_no_zero_divisor(p: int, a: int, b: int)
    requires
        is_prime(p),
        0 < a < p,
        0 < b < p,
    ensures
        (a * b) % p != 0,
    decreases a,
{
    if a > 1 {
        let q = p / a;
        let r = p % a;
        lemma_fundamental_div_mod(p, a);
        lemma_mod_pos_bound(p, a);
        assert(r != 0);
        lemma_no_zero_divisor(p, r, b);
        if (a * b) % p == 0 {
            let m = (a * b) / p;
            lemma_fundamental_div_mod(a * b, p);
            assert(r * b == p * (b - q * m)) by (nonlinear_arith)
                requires
                    p == a * q + r,
                    a * b == p * m,
            ;
            lemma_mod_multiples_basic(b - q * m, p);
            assert((b - q * m) * p == p * (b - q * m)) by (nonlinear_arith);
            assert((r * b) % p == 0);
            assert(false);
        }
    } else {
        lemma_small_mod(b as nat, p as nat);
        assert(a * b == b) by (nonlinear_arith)
            requires
                a == 1,
        ;
    }
}

/// Euclid's lemma: a prime dividing a product of naturals divides a factor.
pub proof fn lemma_euclid(p: int, a: int, b: int)
    requires
        is_prime(p),
        0 <= a,
        0 <= b,
        (a * b) % p == 0,
    ensures
        a % p == 0 || b % p == 0,
{
    lemma_mod_pos_bound(a, p);
    lemma_mod_pos_bound(b, p);
    lemma_mul_mod_noop_general(a, b, p);
    if a % p != 0 && b % p != 0 {
        lemma_no_zero_divisor(p, a % p, b % p);
    }
}

/// Rank primes are positive, and at least 2.
pub proof fn lemma_prime_prod_pos(s: Seq<int>)
    ensures
        prime_prod(s) >= 1,
        s.len() > 0 ==> prime_prod(s) >= 2,
    decreases s.len(),
{
    if s.len() > 0 {
        lemma_prime_prod_pos(s.drop_last());
        assert(prime_prod(s.drop_last()) * rank_prime(s.last()) >= 2) by (nonlinear_arith)
            requires
                prime_prod(s.drop_last()) >= 1,
                rank_prime(s.last()) >= 2,
        ;
    }
}

/// Distinct rank primes do not divide each other.
proof fn lemma_rank_primes_coprime(r: int, s: int)
    requires
        0 <= r < 13,
        0 <= s < 13,
        rank_prime(s) % rank_prime(r) == 0,
    ensures
        r == s,
{
}

/// A rank prime dividing the product of `s` is the prime of a rank in `s`.
proof fn lemma_prime_divides_prod(s: Seq<int>, r: int)
    requires
        all_ranks(s),
        0 <= r < 13,
        prime_prod(s) % rank_prime(r) == 0,
    ensures
        s.contains(r),
    decreases s.len(),
{
    lemma_rank_prime_is_prime(r);
    if s.len() == 0 {
        lemma_small_mod(1, rank_prime(r) as nat);
    } else {
        let t = s.drop_last();
        lemma_prime_prod_pos(t);
        lemma_euclid(rank_prime(r), prime_prod(t), rank_prime(s.last()));
        if prime_prod(t) % rank_prime(r) == 0 {
            lemma_prime_divides_prod(t, r);
            let j = choose|j: int| 0 <= j < t.len() && t[j] == r;
            assert(s[j] == r);
        } else {
            lemma_rank_primes_coprime(r, s.last());
            assert(s[s.len() - 1] == r);
        }
    }
}

/// Removing the element at `j` divides the product by its prime.
pub proof fn lemma_prime_prod_remove(s: Seq<int>, j: int)
    requires
        0 <= j < s.len(),
    ensures
        prime_prod(s) == prime_prod(s.remove(j)) * rank_prime(s[j]),
    decreases s.len(),
{
    if j == s.len() - 1 {
        assert(s.remove(j) =~= s.drop_last());
    } else {
        let t = s.drop_last();
        lemma_prime_prod_remove(t, j);
        assert(s.remove(j).drop_last() =~= t.remove(j));
        assert(s.remove(j).last() == s.last());
        let a = prime_prod(t.remove(j));
        let x = rank_prime(s[j]);
        let y = rank_prime(s.last());
        assert((a * x) * y == (a * y) * x) by (nonlinear_arith);
    }
}

/// Unique factorisation over the rank primes: two rank sequences with the
/// same prime product hold the same ranks, each as often.
pub proof fn lemma_unique_factorisation(s1: Seq<int>, s2: Seq<int>)
    requires
        all_ranks(s1),
        all_ranks(s2),
        prime_prod(s1) == prime_prod(s2),
    ensures
        s1.to_multiset() == s2.to_multiset(),
    decreases s1.len(),
{
    broadcast use vstd::seq_lib::group_to_multiset_ensures;

    if s1.len() == 0 {
        lemma_prime_prod_pos(s2);
        assert(s2.len() == 0);
        assert(s1 =~= s2);
    } else {
        let r = s1.last();
        let t1 = s1.drop_last();
        lemma_prime_prod_pos(t1);
        lemma_mod_multiples_basic(prime_prod(t1), rank_prime(r));
        lemma_prime_divides_prod(s2, r);
        let j = choose|j: int| 0 <= j < s2.len() && s2[j] == r;
        let t2 = s2.remove(j);
        lemma_prime_prod_remove(s2, j);
        let p = rank_prime(r);
        assert(prime_prod(t1) == prime_prod(t2)) by (nonlinear_arith)
            requires
                prime_prod(t1) * p == prime_prod(t2) * p,
                p >= 2,
        ;
        assert(all_ranks(t2)) by {
            assert forall|i: int| 0 <= i < t2.len() implies 0 <= #[trigger] t2[i] < 13 by {
                if i < j {
                    assert(t2[i] == s2[i]);
                } else {
                    assert(t2[i] == s2[i + 1]);
                }
            }
        }
        lemma_unique_factorisation(t1, t2);
        assert(s1 =~= t1.push(r));
        vstd::seq_lib::to_multiset_remove(s2, j);
        vstd::seq_lib::to_multiset_build(t1, r);
        assert(s2.contains(r));
        assert(s2.to_multiset().count(r) > 0);
        assert(s2.to_multiset() =~= t2.to_multiset().insert(r));
    }
}

} // verus!
