[package]
name = "barcode"
version = "0.1.0"
edition = "2021"
publish = false

[dependencies]
chrono = "0.4"
hyper = { version = "1", features = ["full"] }
hyper-util = { version = "0.1", features = ["full"] }
http-body-util = "0.1"
tokio = { version = "1", features = ["full"] }
rusqlite = { version = "0.32", features = ["bundled"] }
reqwest = { version = "0.12", default-features = false }
serde_json = "1"
