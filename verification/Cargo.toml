[package]
name = "copy_sync"
version = "0.1.0"
edition = "2021"
publish = false

[dependencies]
flate2 = "*"
tokio = { version = "*", features = ["full"] }
tokio-tungstenite = "*"
tungstenite = "*"
futures-channel = "*"
futures-util = "*"
arboard = "*"
notify-rust = "*"
clap = { version = "*", features = ["derive"] }

[dev-dependencies]
serde_json = "*"
