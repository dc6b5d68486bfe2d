[package]
name = "opening_report"
version = "0.1.0"
edition = "2021"
publish = false

[dependencies]
futures = "0.3"
jsonxf = "1"
reqwest = { version = "0.12", default-features = false }
serde = { version = "1", features = ["derive"] }
serde_json = "1"
tokio = { version = "1", features = ["macros", "rt-multi-thread"] }
