[package]
name = "tensorlane"
version = "0.1.0"
edition = "2021"
publish = false

[dependencies]
anyhow = "1"
aws-config = "1"
aws-sdk-s3 = "1"
axum = "0.8"
blake2 = "0.10"
bytes = "1"
clap = { version = "4", features = ["derive", "env"] }
clickhouse = { version = "*", features = ["time", "uuid"] }
fs2 = "0.4"
futures = "0.3"
hound = "3"
mime_guess = "2"
postcard = { version = "1", features = ["alloc"] }
prost = "0.13"
pyo3 = { version = "0.25", features = ["abi3-py39", "anyhow", "extension-module"] }
rubato = "*"
sem_safe = "*"
serde = { version = "1", features = ["derive"] }
serde_json = "1"
sha2 = "0.10"
tar = "0.4"
tch = { version = "*", features = ["doc-only"] }
time = { version = "0.3", features = ["formatting", "parsing", "serde"] }
tokio = { version = "1", features = ["full"] }
tokio-stream = { version = "0.1", features = ["net"] }
tokio-util = { version = "0.7", features = ["codec", "rt"] }
tonic = "0.13"
tracing = "0.1"
tracing-subscriber = { version = "0.3", features = ["env-filter"] }
uuid = { version = "1", features = ["serde", "v4"] }
