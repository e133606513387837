[package]
name = "node_benchmark"
version = "0.1.0"
edition = "2021"
publish = false

[dependencies]
anyhow = "1"
bytes = "1"
chrono = "0.4"
futures = "0.3"
nanoid = "0.4"
once_cell = "1"
parking_lot = "0.12"
percent-encoding = "2"
reqwest = { version = "0.12", default-features = false, features = ["json", "stream"] }
rusqlite = { version = "*", features = ["bundled"] }
rustls = { version = "0.23", default-features = false, features = ["ring", "std", "tls12"] }
serde = { version = "1", features = ["derive"] }
serde_json = "1"
serde_yaml_ng = "0.10"
smartstring = { version = "1", features = ["serde"] }
tokio = { version = "1", features = ["full"] }
tokio-rustls = { version = "0.26", default-features = false, features = ["ring", "tls12"] }
tokio-util = "0.7"
webpki-roots = "1"
