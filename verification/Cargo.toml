[package]
name = "opolys"
version = "0.1.0"
edition = "2021"
publish = false

[dependencies]
blake3 = "1"
sha3 = "0.10"
ed25519-dalek = "2"
hex = "0.4"
subtle = "2"
pqc_dilithium = "0.2"
serde = { version = "1", features = ["derive"] }
serde_json = "1"
borsh = { version = "1", features = ["derive"] }
thiserror = "2"
anyhow = "1"
tokio = { version = "1", features = ["full"] }
axum = "0.8"
tower-http = { version = "0.6", features = ["cors"] }
clap = { version = "4", features = ["derive"] }
tracing = "0.1"
tracing-subscriber = "0.3"
