[package]
name = "constdb"
version = "0.1.0"
edition = "2021"
publish = false

[dependencies]
axum = "0.6"
clap = { version = "4", features = ["derive"] }
protobuf = "3"
rocksdb = { version = "0.21", default-features = false }
serde = { version = "1", features = ["derive"] }
serde_json = "1"
tokio = { version = "1", features = ["macros", "rt-multi-thread", "sync"] }
tower = "0.4"
tower-http = { version = "0.4", features = ["normalize-path"] }
