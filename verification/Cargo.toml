[package]
name = "noted"
version = "0.1.0"
edition = "2021"
publish = false

[dependencies]
rust-crypto = "*"
pulldown-cmark = "*"
serde = { version = "*", features = ["derive"] }
serde_json = "*"
