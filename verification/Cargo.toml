[package]
name = "buildkit_agent"
version = "0.1.0"
edition = "2021"
publish = false

[dependencies]
anyhow = "=1.0.104"
axum = "=0.8.9"
clap = { version = "=4.6.7", features = ["derive", "env"] }
hyper-util = { version = "=0.1.21", features = ["tokio"] }
metrics = "=0.24.6"
metrics-exporter-prometheus = "=0.18.3"
prost = "=0.14.4"
tokio = { version = "=1.53.2", features = ["full"] }
tonic = "=0.14.6"
tonic-prost = "*"
tower = "=0.5.3"
tracing = "=0.1.44"
tracing-subscriber = { version = "=0.3.23", features = ["env-filter"] }
