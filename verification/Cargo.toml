[package]
name = "rengarde"
version = "0.1.0"
edition = "2021"
publish = false

[dependencies]
anyhow = "1"
dashmap = "6"
futures = "0.3"
network-interface = "2"
opentelemetry = "*"
opentelemetry_sdk = "*"
opentelemetry-otlp = { version = "*", default-features = false, features = ["grpc-tonic", "trace", "metrics"] }
opentelemetry-semantic-conventions = "*"
serde = { version = "1", features = ["derive"] }
serde_yaml = "0.9"
tokio = { version = "1", features = ["full"] }
tokio-util = "0.7"
tracing = "0.1"
tracing-core = "0.1"
tracing-opentelemetry = "*"
tracing-subscriber = { version = "0.3", features = ["env-filter"] }
