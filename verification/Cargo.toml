[package]
name = "todge"
version = "0.1.0"
edition = "2021"
publish = false

[dependencies]
crossterm = "0.29"
rand = "0.9"
ratatui = "0.30"
tracing-subscriber = { version = "0.3", features = ["env-filter"] }
