[package]
name = "pod_metrics_exporter"
version = "0.1.0"
edition = "2021"
publish = false

[dependencies]
serde_json = "*"
axum = "*"
tokio = { version = "*", features = ["macros", "rt-multi-thread", "net", "time"] }
reqwest = { version = "*", default-features = false, features = ["json", "rustls-tls"] }
log = "*"
env_logger = "*"
