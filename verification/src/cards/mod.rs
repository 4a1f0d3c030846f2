pub mod card;
pub mod deck;

pub use card::{Card, CardParseError, Rank, Suit};
pub use deck::{all_cards, Deck};
