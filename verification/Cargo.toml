[package]
name = "proof_of_sql"
version = "0.1.0"
edition = "2021"
publish = false

[dependencies]
curve25519-dalek = "*"
serde = { version = "*", features = ["derive"] }
