[package]
name = "enclave_log"
version = "0.1.0"
edition = "2021"
publish = false

[dependencies]
anyhow = "1"
bytes = "1"
circbuf = "0.2"
futures = "0.3"
nix = { version = "0.25", default-features = false, features = ["signal"] }
tokio = { version = "1", features = ["rt", "sync", "io-util", "net"] }
tokio-pipe = "0.2"
tokio-util = { version = "0.7", features = ["codec"] }
tokio-vsock = "0.3"

[dev-dependencies]
json = "0.12"
