[package]
name = "rlwe_encryption"
version = "0.1.0"
edition = "2021"
publish = false

[dependencies]
rand = "*"
serde = { version = "*", features = ["derive"] }
poly-ring-xnp1 = "*"
num = "*"
