[package]
name = "sanapeli"
version = "0.1.0"
edition = "2021"
publish = false

[dependencies]
rand = "=0.10.3"
uuid = { version = "=1.27.0", features = ["v4"] }
serde = { version = "=1.0.229", features = ["derive"] }
serde_json = "=1.0.151"
tokio = { version = "=1.53.2", features = ["full"] }
tokio-stream = "=0.1.19"
futures = "=0.3.34"
urlencoding = "=2.1.3"
warp = { version = "=0.4.3", features = ["server", "websocket"] }
