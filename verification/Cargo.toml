[package]
name = "lox-linein-bridge"
version = "2.0.0"
edition = "2021"
publish = false

[dependencies]
anyhow = "1"
cpal = "0.15"
futures-util = { version = "0.3", features = ["sink"] }
mdns-sd = "0.11"
rubato = "0.15"
serde = { version = "1", features = ["derive"] }
serde_json = "1"
tokio = { version = "1", features = ["io-util", "macros", "net", "process", "rt", "sync", "time"] }
tokio-tungstenite = "0.24"
toml = "0.8"
tracing = "0.1"
uuid = { version = "1", features = ["v4"] }
