[package]
name = "aish"
version = "0.1.0"
edition = "2021"
publish = false

[dependencies]
serde = { version = "=1.0.229", features = ["derive"] }
serde_json = "=1.0.154"
serde_yaml = "=0.9.34"
toml = "=0.8.23"
base64 = "=0.22.1"
unicode-width = "=0.1.14"
regex = "=1.13.1"
syntect = { version = "=5.3.0", default-features = false, features = ["default-fancy"] }
clap = "=4.6.7"
chrono = "=0.4.45"
libc = "=0.2.191"
thiserror = "=1.0.69"
reqwest = { version = "0.12", default-features = false, features = ["blocking", "rustls-tls"] }
tokio = { version = "1", features = ["io-util"] }
