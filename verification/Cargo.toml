[package]
name = "pipsqueak"
version = "0.9.0"
edition = "2021"
publish = false

[dependencies]
chrono = { version = "0.4", default-features = false, features = ["std"] }
serde = { version = "1", features = ["derive"] }
serde_json = { version = "1", features = ["preserve_order", "float_roundtrip"] }
tauri = { version = "2", default-features = false, features = ["wry", "tray-icon"] }
gtk = "0.18"
cairo-rs = "0.18"
