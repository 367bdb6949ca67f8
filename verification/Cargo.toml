[package]
name = "brainrunner"
version = "0.1.0"
edition = "2021"
publish = false

[dependencies]
clap = { version = "4", features = ["derive"] }
serde = { version = "1", features = ["derive"] }
serde_json = "1"
tokio = { version = "1", features = ["process", "fs", "time", "rt-multi-thread", "macros"] }
toml = "0.8"
tracing = "0.1"
