[package]
name = "topiq_explorer"
version = "0.1.0"
edition = "2021"
publish = false

[dependencies]
rdkafka = { version = "*", features = ["ssl"] }
regex = "1"
serde = { version = "1", features = ["derive"] }
tauri = { version = "2", default-features = false }
tokio = { version = "1", features = ["rt"] }
