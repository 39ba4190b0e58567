[package]
name = "heelix"
version = "0.1.0"
edition = "2021"
publish = false

[dependencies]
anyhow = "1"
chrono = "0.4"
cpal = "*"
hound = "3"
lazy_static = "1"
log = "0.4"
pdf-extract = "*"
reqwest = { version = "*", features = ["json", "multipart"] }
rusqlite = { version = "*", features = ["bundled"] }
rusqlite-from-row = "*"
serde = { version = "1", features = ["derive"] }
serde_derive = "1"
serde_json = "1"
tokio = { version = "1", features = ["full"] }
