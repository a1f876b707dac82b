[package]
name = "email_server"
version = "1.0.0"
edition = "2021"
publish = false

[dependencies]
regex = "1"
mailparse = "0.15"
serde_json = "1"
chrono = "0.4"
serde = { version = "1", features = ["derive"] }
serde_yaml = "0.9"
anyhow = "1"
tokio = { version = "1", features = ["full"] }
tokio-util = { version = "0.7", features = ["compat"] }
tokio-tungstenite = "*"
futures-util = { version = "0.3", features = ["sink"] }
async-imap = "*"
async-native-tls = "*"
reqwest = { version = "0.12", features = ["json"] }
tracing = "0.1"
tracing-subscriber = { version = "0.3", features = ["env-filter"] }
