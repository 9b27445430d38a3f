[package]
name = "geaflow"
version = "0.1.0"
edition = "2021"
publish = false

[dependencies]
rocksdb = "=0.25.0"
tokio = { version = "=1.53.2", features = ["full"] }
tokio-util = { version = "=0.7.19", features = ["codec"] }
futures = "=0.3.34"
bytes = "=1.12.1"
serde = { version = "=1.0.229", features = ["derive"] }
serde_json = "=1.0.151"
clap = { version = "=4.6.7", features = ["derive"] }
csv = "=1.4.0"
rayon = "=1.12.0"
anyhow = "=1.0.104"

[dev-dependencies]
tempfile = "=3.27.0"
