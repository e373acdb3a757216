[package]
name = "boring_proxy"
version = "0.1.0"
edition = "2021"
publish = false

[dependencies]
bytes = "*"
futures-util = "*"
http-body-util = "*"
hyper = { version = "*", features = ["full"] }
hyper-util = { version = "*", features = ["full"] }
parking_lot = "*"
rand = "=0.8.8"
rustls = "=0.21.12"
tokio = { version = "*", features = ["full"] }
tokio-rustls = "=0.24.1"
tokio-tungstenite = "*"
