[package]
name = "rust_logger"
version = "0.1.0"
edition = "2021"
publish = false

[dependencies]
sha2 = "0.10"
hex = "0.4"
flate2 = "1"
tar = "0.4"
serde_json = "1"
similar = "2"
chrono = "0.4"
hyper = { version = "0.14", features = ["full"] }
hyper-tls = "0.5"
tokio = { version = "1", features = ["full"] }
tokio-rustls = "0.23"
rustls = "0.20"
rustls-pemfile = "1"
mongodb = "2"
futures-util = "0.3"
nix = "0.26"
home = "0.5"
rpassword = "7"
rand = "0.8"
