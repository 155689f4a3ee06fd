[package]
name = "squillion"
version = "0.1.0"
edition = "2021"
publish = false

[dependencies]
base64 = "=0.22.1"
bytes = "=1.12.1"
rand = "=0.8.8"
serde_json = "=1.0.154"
sha1 = "=0.10.7"
async-tungstenite = { version = "=0.29.1", features = ["tokio-runtime"] }
deadpool-sqlite = { version = "=0.14.0", features = ["rt_tokio_1"] }
env_logger = "=0.11.11"
futures = "=0.3.34"
hostname = "=0.4.2"
http-body-util = "=0.1.5"
hyper = { version = "=1.12.0", features = ["server", "http1", "http2"] }
hyper-util = { version = "=0.1.21", features = ["tokio", "server", "server-auto"] }
lazy_static = "=1.5.1"
log = "=0.4.35"
native-tls = "=0.2.18"
openssl = "=0.10.82"
prometheus = "=0.13.4"
reqwest = { version = "=0.12.28", features = ["json"] }
serde = { version = "=1.0.229", features = ["derive"] }
serde_yaml = "=0.9.34"
signal-hook = "=0.3.18"
tokio = { version = "=1.54.1", features = ["full"] }
tokio-native-tls = "=0.3.1"
tokio-stream = { version = "=0.1.19", features = ["net"] }
tokio-util = { version = "=0.7.20", features = ["codec", "time"] }
ws_stream_tungstenite = { version = "=0.15.0", features = ["tokio_io"] }
