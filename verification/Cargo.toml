[package]
name = "tessera"
version = "0.6.1"
edition = "2021"
publish = false

[dependencies]
anyhow = "=1.0.104"
async-trait = "=0.1.92"
cudarc = { version = "=0.12.1", default-features = false, features = ["std", "driver", "cuda-12060"] }
dashmap = "=6.2.1"
futures = { version = "=0.3.34", default-features = false, features = ["std"] }
lazy_static = "=1.5.1"
numpy = "=0.22.1"
opentelemetry = { version = "=0.27.1", default-features = false, features = ["trace"] }
opentelemetry-otlp = { version = "=0.27.0", default-features = false, features = ["grpc-tonic", "trace"] }
opentelemetry_sdk = { version = "=0.27.1", default-features = false, features = ["trace", "rt-tokio"] }
parking_lot = "=0.12.5"
prometheus = { version = "=0.13.4", default-features = false }
pyo3 = { version = "=0.22.6", features = ["extension-module"] }
rand = "=0.8.8"
rand_chacha = "=0.3.1"
serde = { version = "=1.0.229", features = ["derive", "rc"] }
serde_json = "=1.0.154"
thiserror = "=1.0.69"
tokio = { version = "=1.54.1", features = ["rt", "rt-multi-thread", "macros", "sync", "time"] }
tracing = "=0.1.44"
tracing-opentelemetry = { version = "=0.28.0", default-features = false }
tracing-subscriber = { version = "=0.3.23", default-features = false, features = ["registry", "std"] }
usearch = { version = "=2.26.6", default-features = false }
xxhash-rust = { version = "=0.8.19", features = ["xxh3"] }
