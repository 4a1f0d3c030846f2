pub mod config;
pub mod engine;
pub mod request;
pub mod result;

pub use config::SimConfig;
pub use result::{SimAccumulator, SimMethod};
