[package]
name = "team_life"
version = "0.1.0"
edition = "2021"
publish = false

[dependencies]
chrono = { version = "0.4", default-features = false, features = ["clock"] }
rand = "0.8"
indicatif = "0.17"
tokio = { version = "1", features = ["io-util", "net", "time", "rt-multi-thread", "macros"] }
