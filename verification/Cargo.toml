[package]
name = "qol-tray"
version = "0.1.0"
edition = "2021"
publish = false

[dependencies]
anyhow = "1"
axum = "0.8"
dirs = "*"
env_logger = "*"
global-hotkey = "*"
gtk = "0.18"
libc = "0.2"
log = "0.4"
objc2 = "*"
once_cell = "1"
open = "*"
regex = "1"
reqwest = { version = "0.12", default-features = false, features = ["json", "rustls-tls"] }
rust-embed = "8"
serde = { version = "1", features = ["derive"] }
serde_json = "1"
tokio = { version = "1", features = ["full"] }
tokio-stream = { version = "0.1", features = ["sync"] }
toml = "*"
tower-http = { version = "*", features = ["set-header"] }
tray-icon = "*"
walkdir = "2"
