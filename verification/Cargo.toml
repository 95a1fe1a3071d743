[package]
name = "recovery_backup_core"
version = "0.1.0"
edition = "2021"
publish = false

[dependencies]
base64 = "0.21"
chrono = "0.4"
futures = "0.3"
rayon = "1"
reqwest = { version = "0.11", default-features = false, features = ["blocking", "stream", "rustls-tls"] }
serde = { version = "1", features = ["derive"] }
serde_json = "1"
tokio = { version = "1", features = ["full"] }
tokio-util = { version = "0.7", features = ["codec"] }
tracing = "0.1"
tracing-subscriber = { version = "0.3", features = ["env-filter"] }
