[package]
name = "barm_worker"
version = "0.1.0"
edition = "2021"
publish = false

[dependencies]
anyhow = "1"
candle-core = { version = "0.9", default-features = false }
opentelemetry = "0.31"
opentelemetry-otlp = { version = "0.31", default-features = false, features = ["trace", "grpc-tonic"] }
opentelemetry_sdk = "0.31"
parking_lot = "0.12"
rand = "0.9"
serde = { version = "1", features = ["derive"] }
serde_json = "1"
tokio = { version = "1", features = ["rt-multi-thread", "macros", "sync", "time"] }
tracing = "0.1"
tracing-opentelemetry = "0.32"
tracing-subscriber = "0.3"
uuid = { version = "1", features = ["v4"] }
zenoh = { version = "1", default-features = false, features = ["transport_tcp"] }
