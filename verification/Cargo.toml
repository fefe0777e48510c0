[package]
name = "jsonlog"
version = "0.1.0"
edition = "2021"
publish = false

[dependencies]
papaya = "=0.2.5"
indexmap = "=2.14.2"
chrono = "=0.4.45"
serde = { version = "=1.0.229", features = ["derive"] }
serde_json = "=1.0.151"
tracing = "=0.1.44"
tracing-subscriber = { version = "=0.3.23", features = ["env-filter", "fmt", "registry"] }
tracing-log = "=0.2.0"
tracing-opentelemetry = "=0.34.0"
opentelemetry = "=0.33.0"
tokio = { version = "=1.53.2", features = ["rt"] }
gettid = "=0.1.4"
scopeguard = "=1.2.0"
anyhow = "=1.0.104"
