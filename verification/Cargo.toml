[package]
name = "zsh_history_to_fish"
version = "0.1.0"
edition = "2021"
publish = false

[dependencies]
anyhow = "*"
clap = { version = "*", features = ["derive"] }
tokio = { version = "*", features = ["fs", "io-util", "macros", "rt-multi-thread"] }
