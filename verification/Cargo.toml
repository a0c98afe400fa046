[package]
name = "mesquitte_client"
version = "0.1.0"
edition = "2021"
publish = false

[dependencies]
mqtt-codec-kit = { version = "=1.0.5", features = ["v4", "v5", "tokio-codec"] }
tokio = { version = "=1.54.1", features = ["full"] }
tokio-util = { version = "=0.7.20", features = ["codec"] }
futures = "=0.3.34"
log = "=0.4.35"
parking_lot = "=0.12.5"
moka = { version = "=0.12.16", features = ["future"] }
thiserror = "=1.0.69"
