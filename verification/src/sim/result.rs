//! Outcome counters of a simulation.

use crate::eval::rank::HandCategory;
use vstd::prelude::*;

verus! {

/// How the odds were computed.
#[derive(Clone, Copy, Debug, PartialEq, Eq, Structural)]
pub enum SimMethod {
    NotStarted,
    MonteCarlo,
    Exact,
}

impl Default for SimMethod {
    fn default() -> (m: SimMethod)
        ensures
            m == SimMethod::NotStarted,
    {
        SimMethod::NotStarted
    }
}

impl SimMethod {
    /// The method's display label.
    pub fn label(&self) -> (r: &'static str)
        ensures
            r@ == match self {
                SimMethod::NotStarted => "\u{2014}"@,
                SimMethod::MonteCarlo => "Monte Carlo"@,
                SimMethod::Exact => "Exact"@,
            },
    {
        match self {
            SimMethod::NotStarted => "\u{2014}",
            SimMethod::MonteCarlo => "Monte Carlo",
            SimMethod::Exact => "Exact",
        }
    }
}

/// Accumulator used during simulation: outcome counts and, per hand
/// category, how often the player's hand fell in it.
#[derive(Clone, Debug)]
pub struct SimAccumulator {
    pub wins: u64,
    pub ties: u64,
    pub losses: u64,
    pub total: u64,
    pub hand_counts: [u64; 10],
}

impl SimAccumulator {
    /// Each recorded runout is a win, a tie or a loss, and falls in one
    /// category.
    pub open spec fn consistent(&self) -> bool {
        &&& self.total == self.wins + self.ties + self.losses
        &&& self.total == self.hand_counts@[0] + self.hand_counts@[1] + self.hand_counts@[2]
            + self.hand_counts@[3] + self.hand_counts@[4] + self.hand_counts@[5]
            + self.hand_counts@[6] + self.hand_counts@[7] + self.hand_counts@[8]
            + self.hand_counts@[9]
    }

    /// The counters of `self` with one more runout in category `cat`.
    pub open spec fn counts_after(self, other: Self, cat: HandCategory) -> bool {
        &&& other.total == self.total + 1
        &&& forall|i: int|
            0 <= i < 10 ==> #[trigger] other.hand_counts@[i] == self.hand_counts@[i] + if i
                == cat.idx() {
                1int
            } else {
                0int
            }
    }

    /// No counter can overflow on one more runout.
    pub open spec fn has_room(&self) -> bool {
        &&& self.total < u64::MAX
        &&& self.wins < u64::MAX
        &&& self.ties < u64::MAX
        &&& self.losses < u64::MAX
        &&& forall|i: int| 0 <= i < 10 ==> #[trigger] self.hand_counts@[i] < u64::MAX
    }

    /// An empty accumulator.
    pub fn new() -> (a: SimAccumulator)
        ensures
            a.wins == 0 && a.ties == 0 && a.losses == 0 && a.total == 0,
            forall|i: int| 0 <= i < 10 ==> #[trigger] a.hand_counts@[i] == 0,
            a.consistent(),
    {
        SimAccumulator { wins: 0, ties: 0, losses: 0, total: 0, hand_counts: [0u64; 10] }
    }

    /// Record a win with a hand in category `cat`.
    pub fn record_win(&mut self, cat: HandCategory)
        requires
            old(self).has_room(),
        ensures
            final(self).wins == old(self).wins + 1,
            final(self).ties == old(self).ties,
            final(self).losses == old(self).losses,
            old(self).counts_after(*final(self), cat),
            old(self).consistent() ==> final(self).consistent(),
    {
        self.wins += 1;
        self.total += 1;
        let i = cat.index();
        self.hand_counts[i] += 1;
    }

    /// Record a tie with a hand in category `cat`.
    pub fn record_tie(&mut self, cat: HandCategory)
        requires
            old(self).has_room(),
        ensures
            final(self).wins == old(self).wins,
            final(self).ties == old(self).ties + 1,
            final(self).losses == old(self).losses,
            old(self).counts_after(*final(self), cat),
            old(self).consistent() ==> final(self).consistent(),
    {
        self.ties += 1;
        self.total += 1;
        let i = cat.index();
        self.hand_counts[i] += 1;
    }

    /// Record a loss with a hand in category `cat`.
    pub fn record_loss(&mut self, cat: HandCategory)
        requires
            old(self).has_room(),
        ensures
            final(self).wins == old(self).wins,
            final(self).ties == old(self).ties,
            final(self).losses == old(self).losses + 1,
            old(self).counts_after(*final(self), cat),
            old(self).consistent() ==> final(self).consistent(),
    {
        self.losses += 1;
        self.total += 1;
        let i = cat.index();
        self.hand_counts[i] += 1;
    }

    /// Add the counts of `other` to `self`.
    pub fn merge(&mut self, other: &SimAccumulator)
        requires
            old(self).wins + other.wins <= u64::MAX,
            old(self).ties + other.ties <= u64::MAX,
            old(self).losses + other.losses <= u64::MAX,
            old(self).total + other.total <= u64::MAX,
            forall|i: int|
                0 <= i < 10 ==> #[trigger] old(self).hand_counts@[i] + other.hand_counts@[i]
                    <= u64::MAX,
        ensures
            final(self).wins == old(self).wins + other.wins,
            final(self).ties == old(self).ties + other.ties,
            final(self).losses == old(self).losses + other.losses,
            final(self).total == old(self).total + other.total,
            forall|i: int|
                0 <= i < 10 ==> #[trigger] final(self).hand_counts@[i] == old(self).hand_counts@[i]
                    + other.hand_counts@[i],
            old(self).consistent() && other.consistent() ==> final(self).consistent(),
    {
        self.wins += other.wins;
        self.ties += other.ties;
        self.losses += other.losses;
        self.total += other.total;
        let mut i: usize = 0;
        while i < 10
            invariant
                i <= 10,
                self.wins == old(self).wins + other.wins,
                self.ties == old(self).ties + other.ties,
                self.losses == old(self).losses + other.losses,
                self.total == old(self).total + other.total,
                forall|j: int|
                    0 <= j < 10 ==> #[trigger] old(self).hand_counts@[j] + other.hand_counts@[j]
                        <= u64::MAX,
                forall|j: int|
                    0 <= j < i ==> #[trigger] self.hand_counts@[j] == old(self).hand_counts@[j]
                        + other.hand_counts@[j],
                forall|j: int|
                    i <= j < 10 ==> #[trigger] self.hand_counts@[j] == old(self).hand_counts@[j],
            decreases 10 - i,
        {
            self.hand_counts[i] = self.hand_counts[i] + other.hand_counts[i];
            i += 1;
        }
    }
}

impl Default for SimAccumulator {
    fn default() -> (a: SimAccumulator)
        ensures
            a.wins == 0 && a.ties == 0 && a.losses == 0 && a.total == 0,
            forall|i: int| 0 <= i < 10 ==> #[trigger] a.hand_counts@[i] == 0,
    {
        SimAccumulator::new()
    }
}

/// Merging accumulators adds their outcome counts, in either order: merging
/// `a` into `b` counts the same wins, ties, losses and categories as merging
/// `b` into `a`.
pub proof fn lemma_merge_commutes(a: SimAccumulator, b: SimAccumulator, ab: SimAccumulator, ba: SimAccumulator)
    requires
        ab.wins == a.wins + b.wins && ab.ties == a.ties + b.ties && ab.losses == a.losses + b.losses
            && ab.total == a.total + b.total,
        forall|i: int| 0 <= i < 10 ==> #[trigger] ab.hand_counts@[i] == a.hand_counts@[i] + b.hand_counts@[i],
        ba.wins == b.wins + a.wins && ba.ties == b.ties + a.ties && ba.losses == b.losses + a.losses
            && ba.total == b.total + a.total,
        forall|i: int| 0 <= i < 10 ==> #[trigger] ba.hand_counts@[i] == b.hand_counts@[i] + a.hand_counts@[i],
    ensures
        ab.wins == ba.wins && ab.ties == ba.ties && ab.losses == ba.losses && ab.total == ba.total,
        ab.hand_counts@ == ba.hand_counts@,
{
    assert(ab.hand_counts@ =~= ba.hand_counts@);
}

} // verus!
