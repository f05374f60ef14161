[package]
name = "stubby"
version = "0.2.0"
edition = "2021"
publish = false

[dependencies]
base64 = "=0.22.1"
serde_json = "=1.0.154"
serde = { version = "=1.0.229", features = ["derive"] }
anyhow = "=1.0.104"
thiserror = "=2.0.21"
axum = "=0.8.9"
axum-server = { version = "=0.8.0", features = ["tls-rustls"] }
tokio = { version = "=1.54.1", features = ["full"] }
tracing = "=0.1.44"
tracing-subscriber = { version = "=0.3.23", features = ["json", "env-filter"] }
metrics = "=0.24.6"
metrics-exporter-prometheus = { version = "=0.18.3", default-features = false }
json-patch = "=4.2.0"
k8s-openapi = { version = "=0.29.0", features = ["latest"] }
kube = { version = "=5.0.0", features = ["runtime", "client", "rustls-tls"] }
oci-client = { version = "=0.18.0", default-features = false, features = ["rustls-tls"] }
rustls = "=0.23.46"
futures = "=0.3.34"
chrono = { version = "=0.4.45", default-features = false, features = ["clock", "std"] }
