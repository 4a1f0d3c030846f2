//! Poker odds and hand-evaluation library: cards and decks, a Cactus Kev
//! style five-card evaluator, game variants and state, the exact-enumeration
//! and random-runout building blocks of the odds simulator, hand ranges and
//! river showdown ranking, and the input logic of the terminal front end.

pub mod bits;
pub mod cards;
pub mod eval;
pub mod game;
pub mod sim;
pub mod solver;
pub mod tui;
