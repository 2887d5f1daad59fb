[package]
name = "nodestat"
version = "0.1.0"
edition = "2021"
publish = false

[dependencies]
anyhow = "1"
async-trait = "0.1"
chrono = "0.4"
clap = { version = "4", features = ["derive"] }
crossterm = "0.27"
rand = "0.8"
ratatui = "0.26"
tokio = { version = "1", features = ["rt-multi-thread", "macros", "time"] }
