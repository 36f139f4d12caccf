[package]
name = "rutseridb"
version = "0.1.0"
edition = "2021"
publish = false

[dependencies]
xxhash-rust = { version = "0.8", features = ["xxh64"] }
lz4_flex = "0.11"
uuid = { version = "1", features = ["v4", "serde"] }
rand = "0.9"
serde = { version = "1", features = ["derive"] }
serde_json = "1"
toml = "0.8"
thiserror = "1"
anyhow = "1"
clap = { version = "4", features = ["derive"] }
tokio = { version = "1", features = ["full"] }
axum = "0.7"
reqwest = { version = "0.12", default-features = false, features = ["json"] }
tracing = "0.1"
tracing-subscriber = "0.3"
