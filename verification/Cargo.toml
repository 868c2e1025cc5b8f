[package]
name = "aarm"
version = "0.1.0"
edition = "2021"
publish = false

[dependencies]
risc0-zkvm = { version = "*", default-features = false, features = ["std"] }
bincode = "=1.3.3"
rand = "=0.8.8"
serde = { version = "1", features = ["derive"] }
