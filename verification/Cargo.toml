[package]
name = "two_phase_commit"
version = "0.1.0"
edition = "2021"
publish = false

[dependencies]
tokio = { version = "1", features = ["sync"] }
rand = "0.8"
