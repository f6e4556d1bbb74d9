[package]
name = "game_engine"
version = "0.1.0"
edition = "2021"
publish = false

[dependencies]
rand = { version = "0.8", default-features = false, features = ["small_rng"] }
soroban-sdk = { version = "*" }

[dev-dependencies]
soroban-sdk = { version = "*", features = ["testutils"] }
