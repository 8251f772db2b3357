[package]
name = "crabble"
version = "0.1.0"
edition = "2021"
publish = false

[dependencies]
bytes = "1"
tokio = { version = "1", features = ["sync", "macros", "rt-multi-thread", "io-std", "io-util"] }
