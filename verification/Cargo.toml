[package]
name = "aptlantis_ops"
version = "0.1.0"
edition = "2021"
publish = false

[dependencies]
serde = { version = "1", features = ["derive"] }
serde_json = "1"
rusqlite = { version = "*", features = ["bundled"] }
open = "*"
thiserror = "*"
tauri = { version = "2", default-features = false }
