[package]
name = "gitlawb-node"
version = "0.1.0"
edition = "2021"
publish = false

[dependencies]
alloy = { version = "=2.5.0", default-features = false }
anyhow = "=1.0.104"
axum = { version = "=0.8.9", default-features = false, features = ["http1", "json", "tokio"] }
chrono = { version = "=0.4.45", default-features = false, features = ["clock", "std"] }
clap = { version = "4", features = ["derive", "env"] }
futures = "=0.3.34"
hmac = "=0.12.1"
libp2p-core = "=0.43.2"
libp2p-dns = { version = "=0.44.0", features = ["tokio"] }
libp2p-gossipsub = "=0.49.5"
libp2p-identify = "=0.47.0"
libp2p-identity = { version = "=0.2.14", features = ["ed25519", "peerid", "rand"] }
libp2p-kad = "=0.48.0"
libp2p-quic = { version = "=0.13.1", features = ["tokio"] }
libp2p-swarm = { version = "=0.47.1", features = ["macros", "tokio"] }
prometheus = { version = "=0.14.0", default-features = false }
reqwest = { version = "0.12", default-features = false, features = ["json"] }
serde = { version = "1", features = ["derive"] }
serde_json = "1"
sha2 = "=0.10.9"
sqlx = { version = "0.8", default-features = false }
tokio = { version = "1", features = ["full"] }
tracing = "0.1"
tracing-subscriber = { version = "0.3", features = ["env-filter"] }
uuid = { version = "1", features = ["v4"] }
