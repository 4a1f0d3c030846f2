pub mod community;
pub mod hole_cards;
pub mod odds_display;
pub mod settings;
pub mod solver_config;
pub mod solver_results;
pub mod variant_select;
