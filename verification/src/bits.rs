//! Facts about single bits of 64-bit words, used by the deck and the card
//! masks of the showdown ranker.

use vstd::prelude::*;

verus! {

/// Whether bit `i` of `x` is set.
pub open spec fn bit(x: u64, i: u64) -> bool {
    (x >> i) & 1 == 1
}

/// Number of set bits of `x` among positions `0..n`.
pub open spec fn count_bits(x: u64, n: nat) -> nat
    decreases n,
{
    if n == 0 {
        0
    } else {
        count_bits(x, (n - 1) as nat) + if bit(x, (n - 1) as u64) {
            1nat
        } else {
            0nat
        }
    }
}

/// The positions below `n` at which `x` has a set bit.
pub open spec fn bit_set(x: u64, n: int) -> Set<int> {
    Set::new(|i: int| 0 <= i < n && bit(x, i as u64))
}

/// The set of set-bit positions below `n` is finite and has `count_bits` elements.
pub proof fn lemma_bit_set_len(x: u64, n: nat)
    requires
        n <= 64,
    ensures
        bit_set(x, n as int).finite(),
        bit_set(x, n as int).len() == count_bits(x, n),
    decreases n,
{
    if n == 0 {
        assert(bit_set(x, 0) =~= Set::<int>::empty());
    } else {
        let m = (n - 1) as nat;
        lemma_bit_set_len(x, m);
        if bit(x, m as u64) {
            assert(bit_set(x, n as int) =~= bit_set(x, m as int).insert(m as int));
        } else {
            assert(bit_set(x, n as int) =~= bit_set(x, m as int));
        }
    }
}

/// Counting bits below a larger bound counts at least as many.
pub proof fn lemma_count_bits_mono(x: u64, a: nat, b: nat)
    requires
        a <= b,
    ensures
        count_bits(x, a) <= count_bits(x, b),
    decreases b,
{
    if a < b {
        lemma_count_bits_mono(x, a, (b - 1) as nat);
    }
}

/// A word with no bits at or above position 52 counts no more bits below 64
/// than below 52.
pub proof fn lemma_count_bits_52(x: u64, n: nat)
    requires
        x >> 52u64 == 0,
        52 <= n <= 64,
    ensures
        count_bits(x, n) == count_bits(x, 52),
    decreases n,
{
    if n > 52 {
        lemma_count_bits_high_zero(x, 52, n);
    }
}

/// A word with no bits at or above position `lo` counts no more bits below
/// `n >= lo` than below `lo`.
pub proof fn lemma_count_bits_high_zero(x: u64, lo: u64, n: nat)
    requires
        lo < 64,
        x >> lo == 0,
        lo <= n <= 64,
    ensures
        count_bits(x, n) == count_bits(x, lo as nat),
    decreases n,
{
    if n > lo {
        let i = (n - 1) as u64;
        assert(x >> lo == 0 && lo <= i && i < 64 ==> (x >> i) & 1 == 0) by (bit_vector);
        lemma_count_bits_high_zero(x, lo, (n - 1) as nat);
    }
}

/// Flipping a set bit `t` to zero removes exactly that bit.
pub proof fn lemma_clear_bit(a: u64, t: u64)
    requires
        t < 64,
        bit(a, t),
    ensures
        a & !(1u64 << t) == a ^ (1u64 << t),
        forall|i: u64| i < 64 ==> #[trigger] bit(a ^ (1u64 << t), i) == (bit(a, i) && i != t),
{
    assert(t < 64 && (a >> t) & 1 == 1 ==> a & !(1u64 << t) == a ^ (1u64 << t)) by (bit_vector);
    assert forall|i: u64| i < 64 implies #[trigger] bit(a ^ (1u64 << t), i) == (bit(a, i) && i
        != t) by {
        assert(t < 64 && i < 64 && (a >> t) & 1 == 1 ==> (((a ^ (1u64 << t)) >> i) & 1 == 1) == ((
        (a >> i) & 1 == 1) && i != t)) by (bit_vector);
    }
}

/// Clearing a bit that is not set changes nothing.
pub proof fn lemma_clear_unset_bit(a: u64, t: u64)
    requires
        t < 64,
        !bit(a, t),
    ensures
        a & !(1u64 << t) == a,
{
    assert(t < 64 && (a >> t) & 1 != 1 ==> a & !(1u64 << t) == a) by (bit_vector);
}

/// Clearing set bit `t` lowers the count below `n` by one when `t < n`.
pub proof fn lemma_count_bits_clear(a: u64, t: u64, n: nat)
    requires
        t < 64,
        n <= 64,
        bit(a, t),
    ensures
        count_bits(a ^ (1u64 << t), n) == count_bits(a, n) - (if (t as nat) < n {
            1int
        } else {
            0int
        }),
    decreases n,
{
    lemma_clear_bit(a, t);
    if n > 0 {
        lemma_count_bits_clear(a, t, (n - 1) as nat);
        let i = (n - 1) as u64;
        assert(bit(a ^ (1u64 << t), i) == (bit(a, i) && i != t));
    }
}

/// The lowest set bit of a non-zero word is the one `x & (x - 1)` clears.
pub proof fn lemma_clear_lowest(x: u64)
    requires
        x != 0,
    ensures
        (x.trailing_zeros() as u64) < 64,
        bit(x, x.trailing_zeros() as u64),
        x & ((x - 1) as u64) == x ^ (1u64 << (x.trailing_zeros() as u64)),
{
    broadcast use vstd::std_specs::bits::axiom_u64_trailing_zeros;

    let t = x.trailing_zeros() as u64;
    assert(t < 64);
    assert(x << ((64 - t) as u64) == 0);
    assert((x >> t) & 1 == 1);
    assert(t < 64 && x != 0 && (x >> t) & 1 == 1 && x << ((64 - t) as u64) == 0 ==> x & ((x - 1) as u64) == x ^ (
    1u64 << t)) by (bit_vector);
}

/// No bit of a word is set below its trailing-zero count.
pub proof fn lemma_below_lowest(x: u64)
    ensures
        forall|j: u64| j < x.trailing_zeros() ==> !#[trigger] bit(x, j),
{
    broadcast use vstd::std_specs::bits::axiom_u64_trailing_zeros;

    assert forall|j: u64| j < x.trailing_zeros() implies !#[trigger] bit(x, j) by {
        assert((x >> j) & 1u64 == 0u64);
    }
}

/// Counting over positions with no set bit adds nothing.
pub proof fn lemma_count_flat(x: u64, a: nat, b: nat)
    requires
        a <= b <= 64,
        forall|j: u64| a <= j < b ==> !#[trigger] bit(x, j),
    ensures
        count_bits(x, b) == count_bits(x, a),
    decreases b,
{
    if b > a {
        lemma_count_flat(x, a, (b - 1) as nat);
        assert(!bit(x, (b - 1) as u64));
    }
}

/// Bits of `a ^ (1 << t)` are among the bits of `m` when those of `a` are and
/// `t` is set in `a`.
pub proof fn lemma_clear_keeps_subset(a: u64, m: u64, t: u64)
    requires
        t < 64,
        bit(a, t),
        a & m == a,
    ensures
        (a ^ (1u64 << t)) & m == a ^ (1u64 << t),
{
    assert(t < 64 && (a >> t) & 1 == 1 && a & m == a ==> (a ^ (1u64 << t)) & m == a ^ (1u64
        << t)) by (bit_vector);
}

/// A bit set in a word whose bits are among those of `m` is set in `m`.
pub proof fn lemma_subset_bit(a: u64, m: u64, t: u64)
    requires
        t < 64,
        bit(a, t),
        a & m == a,
    ensures
        bit(m, t),
{
    assert(t < 64 && (a >> t) & 1 == 1 && a & m == a ==> (m >> t) & 1 == 1) by (bit_vector);
}

} // verus!
