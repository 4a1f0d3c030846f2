//! Counterfactual-regret solver settings.

use vstd::prelude::*;

verus! {

/// Which CFR variant to use.
#[derive(Clone, Copy, Debug, PartialEq, Eq, Structural)]
pub enum CfrAlgorithm {
    /// CFR+: clips negative regrets to zero after each update.
    CfrPlus,
    /// Discounted CFR: discounts older regrets and strategy contributions.
    Dcfr,
}

} // verus!
