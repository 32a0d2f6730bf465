[package]
name = "gdvpn_server"
version = "0.1.0"
edition = "2021"
publish = false

[dependencies]
anyhow = "*"
async-channel = "*"
dialoguer = "*"
futures = "*"
log = "*"
pkce = "*"
pretty_env_logger = "*"
reqwest = { version = "*", default-features = false, features = ["json", "rustls-tls"] }
serde = { version = "*", features = ["derive"] }
serde_json = "*"
tokio = { version = "*", features = ["full"] }
tokio-tun = "*"
tokio-util = { version = "*", features = ["io"] }
urlencoding = "*"
