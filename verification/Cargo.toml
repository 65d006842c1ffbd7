[package]
name = "cargo_resources"
version = "0.1.0"
edition = "2021"
publish = false

[dependencies]
ring = "*"
hex = "*"
serde = { version = "*", features = ["derive"] }
serde_json = "*"
cargo_metadata = "*"
clap = { version = "*", features = ["derive"] }
build-print = "*"
