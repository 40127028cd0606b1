[package]
name = "agentyk"
version = "0.1.0"
edition = "2021"
publish = false

[dependencies]
async-trait = "=0.1.92"
base64 = "=0.22.1"
chrono = { version = "=0.4.45", features = ["serde"] }
futures-util = "=0.3.34"
mira-eval = "=0.5.0"
rand = "=0.9.5"
regex = "=1.13.1"
reqwest = { version = "=0.12.28", default-features = false, features = ["json", "stream", "rustls-tls", "rustls-tls-native-roots"] }
serde = { version = "=1.0.229", features = ["derive"] }
serde_json = "=1.0.154"
sha2 = "=0.10.9"
tempfile = "=3.27.0"
tokio = { version = "=1.54.1", features = ["full"] }
tracing = "=0.1.44"
