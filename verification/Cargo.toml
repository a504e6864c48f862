[package]
name = "loop_drop"
version = "0.1.0"
edition = "2021"
publish = false

[dependencies]
midir = "=0.11.1"
regex = "=1.13.1"
serde = { version = "=1.0.229", features = ["derive"] }
serde_json = "=1.0.154"
indexmap = "*"
circular-queue = "*"
rand = "0.7"
bus = "*"
humantime = "*"
