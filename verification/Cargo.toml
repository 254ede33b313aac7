[package]
name = "anthill"
version = "0.1.0"
edition = "2021"
publish = false

[dependencies]
rand = "0.9"
num-rational = "0.4"
ratatui = "0.29"
crossterm = "0.28"
serde = { version = "1", features = ["derive"] }
ron = "0.8"
chrono = "0.4"
dirs = "6"
strum = "0.26"
strum_macros = "0.26"
