[package]
name = "noet"
version = "0.1.0"
edition = "2021"
publish = false

[dependencies]
keyring = "=4.2.0"
uuid = { version = "=1.27.0", features = ["v4"] }
html2md = "*"
tokio = { version = "=1.53.2", features = ["full"] }
tokio-tungstenite = "=0.30.0"
futures-util = "=0.3.34"
serde = { version = "=1.0.229", features = ["derive"] }
toml = "=1.1.7"
clap = { version = "=4.6.7", features = ["derive"] }
dirs = "=7.0.0"

[dev-dependencies]
serde_json = "=1.0.151"
