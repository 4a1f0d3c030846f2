[package]
name = "poker_odds"
version = "0.1.0"
edition = "2021"
publish = false

[dependencies]
rand = "0.9"
rand_xoshiro = "0.7"
itertools = "0.14"
once_cell = "1"
rayon = "1"
crossterm = "0.28"
ratatui = "0.29"
anyhow = "1"
thiserror = "2"
serde = { version = "1", features = ["derive"] }
