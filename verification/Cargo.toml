[package]
name = "icon_catalog"
version = "0.1.0"
edition = "2021"
publish = false

[dependencies]
regex = "1"
fuzzy-matcher = "0.3"
anyhow = "1"
serde = { version = "1", features = ["derive"] }
serde_json = "1"
rmcp = { version = "*", features = ["server", "transport-io"] }
tokio = { version = "1", features = ["macros", "rt-multi-thread", "io-std"] }
tracing = "0.1"
tracing-subscriber = { version = "0.3", features = ["env-filter"] }
walkdir = "2"
roxmltree = "*"
