[package]
name = "peerbridge"
version = "0.1.0"
edition = "2021"
publish = false

[dependencies]
anyhow = "*"
bytes = "*"
clap = { version = "*", features = ["derive"] }
futures = "*"
iroh = "*"
iroh-gossip = "*"
rand = "*"
serde = { version = "*", features = ["derive"] }
serde_json = "*"
tokio = { version = "*", features = ["full"] }
tokio-tungstenite = "*"
tracing = "*"
tracing-appender = "*"
tracing-subscriber = "*"

[dev-dependencies]
hex = "*"
