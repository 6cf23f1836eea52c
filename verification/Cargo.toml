[package]
name = "easytier_gui"
version = "0.1.0"
edition = "2021"
publish = false

[dependencies]
serde = { version = "1", features = ["derive"] }
serde_json = "1"
tokio = { version = "1", features = ["net", "sync", "rt-multi-thread", "macros", "time"] }
socket2 = "0.5"
tauri = { version = "2", default-features = false }
rfd = { version = "*", default-features = false }
