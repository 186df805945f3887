[package]
name = "trail_stash"
version = "0.1.0"
edition = "2021"
publish = false

[dependencies]
anyhow = "=1.0.104"
axum = { version = "=0.7.9", default-features = false, features = ["http1", "json", "tokio"] }
iroh = { version = "=1.4.1", default-features = false, features = ["tls-ring"] }
iroh-tickets = { version = "=1.0.0" }
n0-future = { version = "=0.3.2" }
opentelemetry = { version = "0.32", default-features = false, features = ["trace", "logs"] }
opentelemetry-appender-tracing = { version = "0.32", default-features = false }
opentelemetry-otlp = { version = "0.32", default-features = false, features = ["http-proto", "logs", "trace", "reqwest-blocking-client"] }
opentelemetry_sdk = { version = "0.32", default-features = false, features = ["trace", "logs"] }
reqwest = { version = "=0.13.5", default-features = false, features = ["json"] }
serde = { version = "=1.0.229", features = ["derive"] }
serde_json = "=1.0.154"
thiserror = "=2.0.21"
tokio = { version = "=1.54.1", features = ["rt-multi-thread", "macros", "net", "signal", "sync", "time"] }
tracing = "=0.1.44"
tracing-opentelemetry = { version = "0.33", default-features = false }
tracing-subscriber = { version = "=0.3.23", default-features = false, features = ["env-filter", "fmt", "registry"] }
