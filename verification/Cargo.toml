[package]
name = "iroh-nym-transport"
version = "0.1.0"
edition = "2021"
publish = false

[dependencies]
bytes = "=1.12.1"
iroh = { version = "=1.4.1", default-features = false, features = ["unstable-custom-transports"] }
iroh-base = { version = "=1.4.1", default-features = false }
n0-watcher = "=1.0.1"
noq-udp = "=1.4.0"
nym-sphinx-addressing = { version = "=1.20.4", default-features = false }
postcard = { version = "=1.1.3", default-features = false, features = ["alloc"] }
serde_bytes = "=0.11.19"
tokio = { version = "=1.54.1", features = ["sync", "rt"] }
tracing = { version = "=0.1.44", default-features = false }
