[package]
name = "dhara_rs"
version = "0.1.0"
edition = "2021"
publish = false

[dev-dependencies]
rand = { version = "0.8", features = ["small_rng"] }
