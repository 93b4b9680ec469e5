[package]
name = "wasmbus_rpc"
version = "0.1.0"
edition = "2021"
publish = false

[dependencies]
data-encoding = "=2.11.1"
ring = "=0.16.20"
rmp-serde = "=1.3.1"
serde = { version = "=1.0.229", features = ["derive"] }
serde_json = "=1.0.154"
tokio = { version = "=1.54.1", features = ["time", "rt"] }
uuid = { version = "=0.8.2", features = ["v4"] }
wascap = "=0.15.3"

[dev-dependencies]
serde_bytes = "=0.11.19"
