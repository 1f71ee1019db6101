[package]
name = "clipedit"
version = "0.1.0"
edition = "2021"
publish = false

[dependencies]
serde = { version = "1", features = ["derive"] }
serde_json = "1"
arboard = { version = "3", default-features = false }
clipboard-master = "4"
tauri = { version = "2", default-features = false, features = ["tray-icon"] }
