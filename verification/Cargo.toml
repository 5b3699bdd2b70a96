[package]
name = "sl_core"
version = "0.1.0"
edition = "2021"
publish = false

[dependencies]
backtrace = "0.3"
log = "0.4"
env_logger = "0.10"
tokio = { version = "1", features = ["rt-multi-thread", "net", "io-util"] }
tokio-rustls = "0.24"
rustls-pemfile = "1"
