//! Actions at a decision node.

use vstd::prelude::*;

verus! {

/// A discrete action a player can take at a decision node. Bet sizes are
/// basis points (1/10000) of the pot, so actions compare exactly.
#[derive(Clone, Copy, Debug, PartialEq, Eq, Hash, Structural)]
pub enum Action {
    Fold,
    Check,
    Call,
    /// Bet or raise as a fraction of the pot in basis points.
    Bet(u16),
    AllIn,
}

impl Action {
    /// The bet size in basis points of the pot, or `None` for other actions.
    pub fn bet_basis_points(&self) -> (r: Option<u16>)
        ensures
            r == match *self {
                Action::Bet(bp) => Some(bp),
                _ => None,
            },
    {
        match self {
            Action::Bet(bp) => Some(*bp),
            _ => None,
        }
    }
}

} // verus!
