[package]
name = "arangodb_connector"
version = "0.1.3"
edition = "2021"
publish = false

[dependencies]
reqwest = { version = "=0.12.28", features = ["json"] }
serde_json = "=1.0.154"
tokio = { version = "=1.54.1", features = ["rt-multi-thread"] }
