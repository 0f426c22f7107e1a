[package]
name = "meal_vote"
version = "0.1.0"
edition = "2021"
publish = false

[dependencies]
serde = { version = "*", features = ["derive"] }
muon-rs = "*"
tide = "*"
async-std = { version = "*", features = ["attributes"] }
