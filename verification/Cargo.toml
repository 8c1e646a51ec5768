[package]
name = "rust-forward"
version = "0.1.0"
edition = "2021"
publish = false

[dependencies]
anyhow = "1"
bytes = "=1.12.1"
clap = { version = "4", features = ["derive"] }
env_logger = "0.11"
futures-util = "0.3"
h2 = "=0.4.20"
h3 = "=0.0.8"
h3-quinn = "=0.0.10"
hickory-resolver = { version = "=0.26.3", features = ["https-aws-lc-rs", "webpki-roots"] }
http = "=1.5.0"
log = "0.4"
quinn = "=0.11.12"
rcgen = "=0.14.10"
rustls = { version = "=0.23.46", features = ["ring"] }
rustls-pemfile = "=2.2.0"
socket2 = "=0.6.5"
tokio = { version = "1", features = ["full"] }
tokio-rustls = "=0.26.6"
tokio-socks = "=0.5.3"
tokio-tungstenite = { version = "=0.30.0", features = ["rustls-tls-webpki-roots"] }
webpki-roots = "=1.0.10"
