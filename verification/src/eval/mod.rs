pub mod categories;
pub mod class_counts;
pub mod counting;
pub mod evaluator;
pub mod hand_class;
pub mod lookup;
pub mod order;
pub mod primes;
pub mod ranking;
pub mod ranking_proofs;
pub mod rank;
pub mod selection;

pub use evaluator::{best_five_of_n, best_five_of_seven, evaluate_five, evaluate_omaha, HandEvaluator};
pub use rank::{HandCategory, HandValue};
