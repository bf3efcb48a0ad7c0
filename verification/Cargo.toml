[package]
name = "cargo-overlay-registry"
version = "0.1.0"
edition = "2021"
publish = false

[dependencies]
axum = "0.8"
axum-server = { version = "0.7", default-features = false, features = ["tls-rustls-no-provider"] }
bytes = "1"
clap = { version = "4", features = ["derive"] }
env_logger = "0.11"
hyper = { version = "1", features = ["server", "http1", "http2"] }
hyper-util = { version = "0.1", features = ["server-auto", "server", "http1", "http2", "tokio", "service"] }
log = "0.4"
rcgen = "0.13"
reqwest = { version = "0.12", default-features = false, features = ["rustls-tls", "http2", "charset"] }
rustls = { version = "0.23", default-features = false, features = ["ring", "std", "tls12", "logging"] }
rustls-pemfile = "2"
serde = { version = "1", features = ["derive"] }
serde_json = "1"
sha2 = "0.10"
tempfile = "3"
tokio = { version = "1", features = ["full"] }
tokio-rustls = { version = "0.26", default-features = false, features = ["ring", "tls12", "logging"] }
tower = "0.5"
url = "2"
