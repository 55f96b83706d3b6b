[package]
name = "quic-perf"
version = "0.1.0"
edition = "2021"
publish = false

[dependencies]
bytes = "1"
mio = { version = "1", features = ["os-poll", "net"] }
quiche = "0.26"
quinn = "0.11"
rcgen = "0.13"
redis = { version = "0.27", features = ["tokio-comp"] }
ring = "0.17"
rustls = { version = "0.23", default-features = false, features = ["ring", "std"] }
slab = "0.4"
tempfile = "3"
tokio = { version = "1", features = ["full"] }
tokio-quiche = "0.16"
tokio-stream = "0.1"
tquic = "1.6"
