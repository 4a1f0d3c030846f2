pub mod card_input;
pub mod keys;
pub mod navigation;
pub mod screens;
