[package]
name = "deeper"
version = "0.1.0"
edition = "2021"
publish = false

[dependencies]
rand = "0.8"
ena = "0.14"
serde = { version = "1", features = ["derive"] }
ron = "0.6"
