[package]
name = "sidecar"
version = "0.1.0"
edition = "2021"
publish = false

[dependencies]
anyhow = "1"
bytes = "=1.12.1"
futures = "0.3"
hyper = { version = "0.14", features = ["full"] }
libc = "0.2"
nix = "0.26"
pin-project = "1"
prost = "0.11"
rand = "=0.8.8"
rmp-serde = "1"
sendfd = { version = "=0.4.5", features = ["tokio"] }
serde = { version = "1", features = ["derive"] }
serde_json = "1"
smallvec = "=1.16.4"
tarpc = { version = "=0.31.0", features = ["full"] }
tokio = { version = "1", features = ["full"] }
tokio-serde = "=0.8.0"
tokio-util = { version = "=0.7.20", features = ["codec"] }
tracing-subscriber = "0.3"
uuid = { version = "=1.29.0", features = ["v4"] }
