[package]
name = "orca_pools"
version = "0.1.0"
edition = "2021"
publish = false

[dependencies]
anyhow = "1"
base64 = "0.21"
futures = { version = "0.3", default-features = false, features = ["alloc"] }
lazy_static = "1"
log = "0.4"
reqwest = { version = "0.11", default-features = false, features = ["rustls-tls-webpki-roots"] }
serde = { version = "1", features = ["derive"] }
serde_json = "1"
solana-account-decoder = "1.18"
solana-program = "1.18"
solana-sdk = "1.18"
tokio = { version = "1", features = ["macros", "rt", "signal", "time"] }
