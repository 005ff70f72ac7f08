[package]
name = "arb_collector"
version = "0.1.0"
edition = "2021"
publish = false

[dependencies]
async-stream = "0.3"
bcs = "0.1"
bincode = "1"
eyre = "0.6"
fastcrypto = "0.1"
futures = "0.3"
interprocess = { version = "2", features = ["tokio"] }
prost-types = "0.13"
serde = { version = "1", features = ["derive"] }
serde_json = "1"
tokio = { version = "1", features = ["io-util", "macros", "rt", "time"] }
tokio-tungstenite = { version = "0.24", features = ["connect"] }
tonic = { version = "0.12", features = ["tls"] }
tracing = "0.1"
