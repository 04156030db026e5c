[package]
name = "fuzzpick"
version = "0.1.0"
edition = "2021"
publish = false

[dependencies]
clap = { version = "*", features = ["derive"] }
crossterm = "*"
futures = "*"
ratatui = "*"
tokio = { version = "*", features = ["rt-multi-thread", "macros", "io-util", "io-std", "sync", "time"] }
