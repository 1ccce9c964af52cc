[package]
name = "line_relay"
version = "0.1.0"
edition = "2021"
publish = false

[dependencies]
toml = "0.8"
tokio = { version = "1", features = ["net", "io-util", "sync", "rt-multi-thread", "macros"] }
clap = { version = "4", features = ["derive"] }
anyhow = "1"
