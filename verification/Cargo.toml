[package]
name = "veritas"
version = "0.1.0"
edition = "2021"
publish = false

[dependencies]
anyhow = "=1.0.104"
borsh = "=0.10.4"
serde = { version = "=1.0.229", features = ["derive"] }
sov-modules-api = { version = "=0.3.0", default-features = false }
