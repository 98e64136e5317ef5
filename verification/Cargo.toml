[package]
name = "docbot"
version = "0.1.0"
edition = "2021"
publish = false

[dependencies]
sha2 = "=0.11.0"
lru = "=0.18.5"
kube = { version = "=3.1.0", features = ["derive"] }
k8s-openapi = { version = "=0.27.1", features = ["latest", "schemars"] }
tokio = { version = "=1.53.2", features = ["full"] }
futures = "=0.3.34"
serde = { version = "*", features = ["derive"] }
serde_json = "*"
schemars = "*"
tracing = "*"
tracing-subscriber = { version = "*", features = ["env-filter"] }
