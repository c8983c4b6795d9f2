[package]
name = "solitaire_quest"
version = "0.1.0"
edition = "2021"
publish = false

[dependencies]
chrono = { version = "0.4", default-features = false, features = ["clock", "serde", "std"] }
rand = "0.9"
png = "0.17"
serde = { version = "1", features = ["derive"] }
serde_json = "1"
dirs = "6"
