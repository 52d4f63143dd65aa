[package]
name = "history_metadata"
version = "0.1.0"
edition = "2021"
publish = false

[dependencies]
seahash = "4"
tokio = { version = "1", default-features = false, features = ["fs"] }

[dev-dependencies]
chrono = "0.4"
serde_json = "1"
