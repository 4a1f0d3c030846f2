//! A 52-card deck tracked as a bit mask over the compact card indices.

use crate::bits::{
    bit, bit_set, count_bits, lemma_bit_set_len, lemma_clear_bit, lemma_clear_keeps_subset,
    lemma_below_lowest, lemma_clear_lowest, lemma_count_flat, lemma_clear_unset_bit, lemma_count_bits_52, lemma_count_bits_clear,
    lemma_subset_bit,
};
use crate::cards::card::{card_at, Card, Rank, Suit};
use rand::Rng;
use rand_xoshiro::Xoshiro256PlusPlus;
use vstd::prelude::*;

verus! {

/// The random number generator that the simulations draw from.
#[verifier::external_type_specification]
#[verifier::external_body]
pub struct ExXoshiro256PlusPlus(Xoshiro256PlusPlus);

/// `Rng::random_range(0..n)` on a xoshiro256++ generator: a value in `0..n`
/// (rand panics on an empty range, which the `requires` rules out). Which
/// value comes is left open: it depends on the generator's state.
#[verifier::external_body]
pub(crate) fn random_below(rng: &mut Xoshiro256PlusPlus, n: u32) -> (r: u32)
    requires
        n > 0,
    ensures
        r < n,
{
    rng.random_range(0..n)
}

/// A 52-card deck; bit `i` of the mask is set while the card with index `i`
/// is still available.
pub struct Deck {
    available: u64,
}

impl View for Deck {
    type V = Set<int>;

    /// The indices of the cards still in the deck.
    closed spec fn view(&self) -> Set<int> {
        bit_set(self.available, 52)
    }
}

impl Deck {
    #[verifier::type_invariant]
    spec fn no_cards_beyond_52(self) -> bool {
        self.available >> 52u64 == 0
    }

    /// Every deck holds a finite set of card indices in `0..52`.
    pub proof fn lemma_view_bounds(&self)
        ensures
            self@.finite(),
            self@.len() <= 52,
            forall|i: int| #[trigger] self@.contains(i) ==> 0 <= i < 52,
    {
        lemma_bit_set_len(self.available, 52);
        vstd::set_lib::lemma_int_range(0, 52);
        vstd::set_lib::lemma_len_subset(self@, vstd::set_lib::set_int_range(0, 52));
    }

    /// A full deck.
    pub fn new() -> (d: Deck)
        ensures
            d@ == vstd::set_lib::set_int_range(0, 52),
    {
        let available: u64 = 0xF_FFFF_FFFF_FFFF;
        assert(0xF_FFFF_FFFF_FFFFu64 >> 52u64 == 0) by (bit_vector);
        assert forall|i: int| 0 <= i < 52 implies #[trigger] bit(available, i as u64) by {
            let j = i as u64;
            assert(j < 52 ==> (0xF_FFFF_FFFF_FFFFu64 >> j) & 1 == 1) by (bit_vector);
        }
        let d = Deck { available };
        assert(d@ =~= vstd::set_lib::set_int_range(0, 52));
        d
    }

    /// A full deck.
    pub fn full() -> (d: Deck)
        ensures
            d@ == vstd::set_lib::set_int_range(0, 52),
    {
        Self::new()
    }

    /// Remove a specific card (mark as dealt/known).
    pub fn remove(&mut self, card: Card)
        ensures
            final(self)@ == old(self)@.remove(card.idx()),
    {
        proof {
            use_type_invariant(&*self);
        }
        let idx = card.index();
        let t = idx as u64;
        let ghost a = self.available;
        proof {
            if bit(a, t) {
                lemma_clear_bit(a, t);
                assert(a >> 52u64 == 0 && (a >> t) & 1 == 1 && t < 64 ==> (a ^ (1u64 << t)) >> 52u64
                    == 0) by (bit_vector);
            } else {
                lemma_clear_unset_bit(a, t);
            }
        }
        self.available = self.available & !(1u64 << t);
        proof {
            if bit(a, t) {
                assert(self@ =~= old(self)@.remove(card.idx()));
            } else {
                assert(self@ =~= old(self)@.remove(card.idx()));
            }
        }
    }

    /// Remove multiple cards at once.
    pub fn remove_many(&mut self, cards: &[Card])
        ensures
            final(self)@ == old(self)@.difference(cards@.map_values(|c: Card| c.idx()).to_set()),
    {
        let ghost removed = cards@.map_values(|c: Card| c.idx());
        let mut k: usize = 0;
        while k < cards.len()
            invariant
                k <= cards.len(),
                removed == cards@.map_values(|c: Card| c.idx()),
                self@ == old(self)@.difference(removed.take(k as int).to_set()),
            decreases cards.len() - k,
        {
            self.remove(cards[k]);
            assert(removed.take(k + 1) =~= removed.take(k as int).push(removed[k as int]));
            assert(removed.take(k + 1).to_set() =~= removed.take(k as int).to_set().insert(
                removed[k as int],
            )) by {
                removed.take(k as int).lemma_push_to_set_commute(removed[k as int]);
            }
            k += 1;
        }
        assert(removed.take(k as int) =~= removed);
    }

    /// Whether a card is still in the deck.
    pub fn contains(&self, card: Card) -> (r: bool)
        ensures
            r == self@.contains(card.idx()),
    {
        (self.available >> (card.index() as u64)) & 1 == 1
    }

    /// Number of cards still in the deck.
    pub fn remaining_count(&self) -> (r: u32)
        ensures
            r == self@.len(),
            r <= 52,
    {
        let mut count: u32 = 0;
        let mut i: u64 = 0;
        while i < 52
            invariant
                i <= 52,
                count == count_bits(self.available, i as nat),
                count <= i,
            decreases 52 - i,
        {
            if (self.available >> i) & 1 == 1 {
                count += 1;
            }
            i += 1;
        }
        proof {
            lemma_bit_set_len(self.available, 52);
        }
        count
    }

    /// The remaining cards in index order.
    pub fn remaining_cards(&self) -> (r: Vec<Card>)
        ensures
            forall|k: int| 0 <= k < r.len() ==> #[trigger] self@.contains(r@[k].idx()),
            forall|i: int| #[trigger]
                self@.contains(i) ==> exists|k: int| 0 <= k < r.len() && r@[k] == card_at(i),
            forall|a: int, b: int| 0 <= a < b < r.len() ==> r@[a].idx() < r@[b].idx(),
            r.len() == self@.len(),
            forall|k: int|
                0 <= k < r.len() ==> self@.filter(|j: int| j < (#[trigger] r@[k]).idx()).len() == k,
    {
        let mut out: Vec<Card> = Vec::new();
        let mut i: u8 = 0;
        while i < 52
            invariant
                i <= 52,
                out.len() == count_bits(self.available, i as nat),
                forall|k: int|
                    0 <= k < out.len() ==> #[trigger] bit(self.available, out@[k].idx() as u64)
                        && 0 <= out@[k].idx() < i,
                forall|j: int|
                    0 <= j < i && #[trigger] bit(self.available, j as u64) ==> exists|k: int|
                        0 <= k < out.len() && out@[k] == card_at(j),
                forall|a: int, b: int| 0 <= a < b < out.len() ==> out@[a].idx() < out@[b].idx(),
            decreases 52 - i,
        {
            let ghost old_out = out@;
            if (self.available >> (i as u64)) & 1 == 1 {
                let c = Card::from_index(i);
                out.push(c);
                proof {
                    assert(out@[out.len() - 1] == card_at(i as int));
                    lemma_push_in_order(old_out, c, self.available, i as int);
                }
            }
            assert forall|j: int|
                0 <= j < i + 1 && #[trigger] bit(self.available, j as u64) implies exists|k: int|
                    0 <= k < out.len() && out@[k] == card_at(j) by {
                if j < i {
                    let k = choose|k: int| 0 <= k < old_out.len() && old_out[k] == card_at(j);
                    assert(out@[k] == card_at(j));
                } else {
                    assert(out@[out.len() - 1] == card_at(j));
                }
            }
            i += 1;
        }
        proof {
            lemma_bit_set_len(self.available, 52);
            assert forall|i: int| #[trigger] self@.contains(i) implies exists|k: int|
                0 <= k < out.len() && out@[k] == card_at(i) by {
                assert(bit(self.available, i as u64));
            }
            self.lemma_view_bounds();
            assert forall|k: int| 0 <= k < out.len() implies self@.filter(|j: int| j < (#[trigger] out@[k]).idx()).len()
                == k by {
                lemma_lower_count(self@, out@, k);
            }
        }
        out
    }

    /// Deal the remaining card with exactly `k` remaining cards of lower
    /// index (the `k`-th of `remaining_cards`, counting from 0), which leaves
    /// the deck; `None`, with the deck unchanged, when at most `k` cards
    /// remain.
    pub fn deal_nth(&mut self, k: u32) -> (r: Option<Card>)
        ensures
            k >= old(self)@.len() ==> r is None && final(self)@ == old(self)@,
            k < old(self)@.len() ==> (r matches Some(c) && old(self)@.contains(c.idx())
                && old(self)@.filter(|j: int| j < c.idx()).len() == k
                && final(self)@ == old(self)@.remove(c.idx())),
    {
        proof {
            use_type_invariant(&*self);
        }
        let count = self.remaining_count();
        if k >= count {
            return None;
        }
        proof {
            lemma_bit_set_len(self.available, 52);
            lemma_count_bits_52(self.available, 64);
        }
        let idx = nth_set_bit(self.available, k);
        proof {
            let a = self.available;
            assert(a >> 52u64 == 0 && (a >> (idx as u64)) & 1 == 1 ==> (idx as u64) < 52)
                by (bit_vector);
            lemma_bit_set_len(a, idx as nat);
            assert(self@.filter(|j: int| j < idx as int) =~= bit_set(a, idx as int));
        }
        let card = Card::from_index(idx as u8);
        self.remove(card);
        Some(card)
    }

    /// Deal a random card from the remaining deck: `None` when it is empty,
    /// otherwise one of its cards, which leaves the deck. The card is the
    /// one that `deal_nth` gives for a position drawn below the number of
    /// remaining cards.
    pub fn deal_random(&mut self, rng: &mut Xoshiro256PlusPlus) -> (r: Option<Card>)
        ensures
            old(self)@.len() == 0 ==> r is None && final(self)@ == old(self)@,
            old(self)@.len() > 0 ==> (r matches Some(c) && old(self)@.contains(c.idx())
                && final(self)@ == old(self)@.remove(c.idx())),
    {
        let count = self.remaining_count();
        if count == 0 {
            return None;
        }
        let target = random_below(rng, count);
        self.deal_nth(target)
    }

    /// Clone the deck state (for simulation branches).
    pub fn snapshot(&self) -> (d: Deck)
        ensures
            d@ == self@,
    {
        proof {
            use_type_invariant(self);
        }
        Deck { available: self.available }
    }
}

impl Default for Deck {
    fn default() -> (d: Deck)
        ensures
            d@ == vstd::set_lib::set_int_range(0, 52),
    {
        Self::new()
    }
}

/// In cards listed in increasing index order, all of the set `s` of indices
/// and each of its members once, the `k`-th card has exactly `k` members of
/// `s` below its index.
proof fn lemma_lower_count(s: Set<int>, r: Seq<Card>, k: int)
    requires
        0 <= k < r.len(),
        forall|i: int| #[trigger] s.contains(i) ==> 0 <= i < 52,
        forall|m: int| 0 <= m < r.len() ==> #[trigger] s.contains(r[m].idx()),
        forall|i: int| #[trigger]
            s.contains(i) ==> exists|m: int| 0 <= m < r.len() && r[m] == card_at(i),
        forall|a: int, b: int| 0 <= a < b < r.len() ==> r[a].idx() < r[b].idx(),
    ensures
        s.filter(|j: int| j < r[k].idx()).len() == k,
{
    let ids = r.take(k).map_values(|c: Card| c.idx());
    assert(ids.no_duplicates()) by {
        assert forall|a: int, b: int| 0 <= a < ids.len() && 0 <= b < ids.len() && a != b implies ids[a]
            != ids[b] by {
            if a < b {
                assert(r[a].idx() < r[b].idx());
            } else {
                assert(r[b].idx() < r[a].idx());
            }
        }
    }
    ids.unique_seq_to_set();
    assert(s.filter(|j: int| j < r[k].idx()) =~= ids.to_set()) by {
        assert forall|x: int| s.filter(|j: int| j < r[k].idx()).contains(x) implies #[trigger] ids.to_set().contains(x) by {
            let m = choose|m: int| 0 <= m < r.len() && r[m] == card_at(x);
            crate::cards::card::lemma_card_index_round_trip(r[m], x);
            if m >= k {
                if m > k {
                    assert(r[k].idx() < r[m].idx());
                }
            }
            assert(ids[m] == x);
        }
        assert forall|x: int| #[trigger] ids.to_set().contains(x) implies s.filter(|j: int| j < r[k].idx()).contains(x) by {
            let m = choose|m: int| 0 <= m < ids.len() && ids[m] == x;
            assert(r[m].idx() < r[k].idx());
            assert(s.contains(r[m].idx()));
        }
    }
}

/// Two members of a finite set with as many members below each are the same
/// member: a position among the remaining cards names one card.
pub proof fn lemma_lower_count_unique(s: Set<int>, a: int, b: int)
    requires
        s.finite(),
        s.contains(a),
        s.contains(b),
        s.filter(|j: int| j < a).len() == s.filter(|j: int| j < b).len(),
    ensures
        a == b,
{
    if a != b {
        let (lo, hi) = if a < b { (a, b) } else { (b, a) };
        let fl = s.filter(|j: int| j < lo);
        let fh = s.filter(|j: int| j < hi);
        vstd::set_lib::lemma_len_subset(fh, s);
        assert(fl.subset_of(fh.remove(lo)));
        vstd::set_lib::lemma_len_subset(fl, fh.remove(lo));
        assert(fh.contains(lo));
        assert(fh.remove(lo).len() == fh.len() - 1);
        assert(false);
    }
}

/// Dealing from a full deck takes a new card each time: with `decks[i]` the
/// deck before the `i`-th deal and `drawn[i]` the card it gives, `52 - i`
/// cards remain after `i` deals, a dealt card is in no later deck, no card
/// comes twice, at most 52 deals give a card, and after 52 the deck is
/// empty, so that the next deal gives none.
pub proof fn lemma_deals_from_full_deck(decks: Seq<Set<int>>, drawn: Seq<int>)
    requires
        decks.len() == drawn.len() + 1,
        decks[0] == vstd::set_lib::set_int_range(0, 52),
        forall|i: int|
            0 <= i < drawn.len() ==> #[trigger] decks[i].contains(drawn[i]) && decks[i + 1]
                == decks[i].remove(drawn[i]),
    ensures
        drawn.len() <= 52,
        forall|i: int| 0 <= i < decks.len() ==> (#[trigger] decks[i]).finite() && decks[i].len() == 52 - i,
        forall|k: int, i: int| 0 <= k < i < decks.len() ==> !#[trigger] decks[i].contains(drawn[k]),
        forall|i: int, j: int| 0 <= i < j < drawn.len() ==> drawn[i] != drawn[j],
        drawn.len() == 52 ==> decks[52] == Set::<int>::empty(),
    decreases drawn.len(),
{
    broadcast use vstd::set::group_set_axioms;

    let n = drawn.len() as int;
    if n == 0 {
        vstd::set_lib::lemma_int_range(0, 52);
    } else {
        let ds = decks.drop_last();
        let dr = drawn.drop_last();
        assert forall|i: int| 0 <= i < dr.len() implies #[trigger] ds[i].contains(dr[i]) && ds[i + 1]
            == ds[i].remove(dr[i]) by {
            assert(ds[i] == decks[i] && dr[i] == drawn[i] && ds[i + 1] == decks[i + 1]);
        }
        lemma_deals_from_full_deck(ds, dr);
        assert(decks[n - 1] == ds[n - 1]);
        assert(decks[n - 1].contains(drawn[n - 1]));
        assert(ds[n - 1].finite() && ds[n - 1].len() == 52 - (n - 1));
        assert(decks[n] == decks[n - 1].remove(drawn[n - 1]));
        assert(decks[n].finite() && decks[n].len() == 52 - n);
        assert forall|i: int| 0 <= i < decks.len() implies (#[trigger] decks[i]).finite()
            && decks[i].len() == 52 - i by {
            if i < n {
                assert(decks[i] == ds[i]);
            }
        }
        assert forall|k: int, i: int| 0 <= k < i < decks.len() implies !#[trigger] decks[i].contains(
            drawn[k],
        ) by {
            if i < n {
                assert(decks[i] == ds[i] && drawn[k] == dr[k]);
            } else if k < n - 1 {
                assert(decks[n - 1] == ds[n - 1] && drawn[k] == dr[k]);
                assert(!ds[n - 1].contains(dr[k]));
            }
        }
        assert forall|i: int, j: int| 0 <= i < j < drawn.len() implies drawn[i] != drawn[j] by {
            if j < n - 1 {
                assert(drawn[i] == dr[i] && drawn[j] == dr[j]);
            } else {
                assert(!decks[j].contains(drawn[i]));
            }
        }
        if n == 52 {
            decks[52].lemma_len0_is_empty();
        }
    }
}

/// Appending the card with index `i` to cards of lower indices, all in the
/// mask, keeps them in increasing index order and in the mask.
proof fn lemma_push_in_order(old_out: Seq<Card>, c: Card, avail: u64, i: int)
    requires
        forall|k: int|
            0 <= k < old_out.len() ==> #[trigger] bit(avail, old_out[k].idx() as u64) && 0
                <= old_out[k].idx() < i,
        forall|a: int, b: int| 0 <= a < b < old_out.len() ==> old_out[a].idx() < old_out[b].idx(),
        c.idx() == i,
        0 <= i < 52,
        bit(avail, i as u64),
    ensures
        forall|k: int|
            0 <= k < old_out.push(c).len() ==> #[trigger] bit(avail, old_out.push(c)[k].idx() as u64)
                && 0 <= old_out.push(c)[k].idx() < i + 1,
        forall|a: int, b: int|
            0 <= a < b < old_out.push(c).len() ==> old_out.push(c)[a].idx() < old_out.push(c)[b].idx(),
{
    let out = old_out.push(c);
    assert forall|k: int| 0 <= k < out.len() implies #[trigger] bit(avail, out[k].idx() as u64) && 0
        <= out[k].idx() < i + 1 by {
        if k < old_out.len() {
            assert(out[k] == old_out[k]);
            assert(bit(avail, old_out[k].idx() as u64));
        }
    }
    assert forall|a: int, b: int| 0 <= a < b < out.len() implies out[a].idx() < out[b].idx() by {
        assert(out[a] == old_out[a]);
        assert(bit(avail, old_out[a].idx() as u64));
        if b < old_out.len() {
            assert(out[b] == old_out[b]);
        }
    }
}

/// Return the bit-position of the `n`-th set bit in `mask` (0-indexed): the
/// set position with exactly `n` set positions below it.
///
/// Clears the lowest set bit `n` times, then returns the trailing-zero count
/// of what remains.
pub fn nth_set_bit(mask: u64, n: u32) -> (r: u32)
    requires
        (n as nat) < count_bits(mask, 64),
    ensures
        r < 64,
        bit(mask, r as u64),
        count_bits(mask, r as nat) == n,
{
    let mut m = mask;
    let mut k: u32 = 0;
    let ghost mut p: nat = 0;
    proof {
        assert(mask & mask == mask) by (bit_vector);
    }
    while k < n
        invariant
            k <= n,
            (n as nat) < count_bits(mask, 64),
            count_bits(m, 64) == count_bits(mask, 64) - k,
            m & mask == m,
            p <= 64,
            count_bits(mask, p) == k,
            forall|j: u64| j < p ==> !#[trigger] bit(m, j),
            forall|j: u64| p <= j < 64 ==> #[trigger] bit(m, j) == bit(mask, j),
        decreases n - k,
    {
        proof {
            assert(count_bits(m, 64) > 0);
            if m == 0 {
                lemma_zero_count(64);
            }
            lemma_clear_lowest(m);
            lemma_below_lowest(m);
            let t = m.trailing_zeros() as u64;
            lemma_count_bits_clear(m, t, 64);
            lemma_clear_keeps_subset(m, mask, t);
            lemma_clear_bit(m, t);
            assert(t >= p);
            assert forall|j: u64| p <= j < t implies !#[trigger] bit(mask, j) by {
                assert(bit(m, j) == bit(mask, j));
            }
            lemma_count_flat(mask, p, t as nat);
            assert(bit(mask, t));
            assert(count_bits(mask, (t + 1) as nat) == count_bits(mask, t as nat) + 1);
            p = (t + 1) as nat;
        }
        m = m & (m - 1);
        k += 1;
    }
    proof {
        if m == 0 {
            lemma_zero_count(64);
        }
        lemma_clear_lowest(m);
        lemma_below_lowest(m);
        let t = m.trailing_zeros() as u64;
        lemma_subset_bit(m, mask, t);
        assert(t >= p);
        assert forall|j: u64| p <= j < t implies !#[trigger] bit(mask, j) by {
            assert(bit(m, j) == bit(mask, j));
        }
        lemma_count_flat(mask, p, t as nat);
    }
    m.trailing_zeros()
}

/// The word zero has no set bits.
proof fn lemma_zero_count(n: nat)
    requires
        n <= 64,
    ensures
        count_bits(0u64, n) == 0,
    decreases n,
{
    if n > 0 {
        let i = (n - 1) as u64;
        assert((0u64 >> i) & 1 == 0) by (bit_vector);
        lemma_zero_count((n - 1) as nat);
    }
}

/// Build the full ordered deck as a `Vec<Card>`: card `i` has index `i`.
pub fn all_cards() -> (cards: Vec<Card>)
    ensures
        cards.len() == 52,
        forall|i: int| 0 <= i < 52 ==> #[trigger] cards@[i] == card_at(i),
{
    let mut cards: Vec<Card> = Vec::with_capacity(52);
    let mut r: u8 = 0;
    while r < 13
        invariant
            r <= 13,
            cards.len() == 4 * r,
            forall|i: int| 0 <= i < cards.len() ==> #[trigger] cards@[i] == card_at(i),
        decreases 13 - r,
    {
        let rank = Rank::from_index(r);
        let mut s: u8 = 0;
        while s < 4
            invariant
                r < 13,
                s <= 4,
                rank == crate::cards::card::rank_at(r as int),
                cards.len() == 4 * r + s,
                forall|i: int| 0 <= i < cards.len() ==> #[trigger] cards@[i] == card_at(i),
            decreases 4 - s,
        {
            let c = Card::new(rank, Suit::from_index(s));
            proof {
                let i = 4 * r + s;
                assert(i / 4 == r as int && i % 4 == s as int);
            }
            cards.push(c);
            s += 1;
        }
        r += 1;
    }
    cards
}

} // verus!
