pub mod abstraction;
pub mod action;
pub mod cfr;
pub mod game_tree;
pub mod range;
pub mod showdown;
pub mod toy_games;
pub mod vector_api;
