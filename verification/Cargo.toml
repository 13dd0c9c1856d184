[package]
name = "ipdetect"
version = "0.1.0"
edition = "2021"
publish = false

[dependencies]
native-tls = "=0.2.18"
serde = { version = "=1.0.229", features = ["derive"] }
serde_json = "=1.0.154"
toml = "=0.8.23"
ureq = { version = "=2.12.1", default-features = false, features = ["native-tls", "socks-proxy"] }
windows = { version = "=0.57.0", features = ["Win32_Foundation", "Win32_Graphics_Gdi"] }
winreg = "=0.52.0"
