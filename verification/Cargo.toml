[package]
name = "poke_times"
version = "0.1.0"
edition = "2021"
publish = false

[dependencies]
seed = "=0.9.2"
serde = { version = "=1.0.229", features = ["derive"] }
