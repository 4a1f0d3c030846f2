pub mod consistency;
pub mod state;
pub mod variant;

pub use state::GameState;
pub use variant::{BettingRound, GameVariant};
