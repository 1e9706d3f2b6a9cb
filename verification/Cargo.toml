[package]
name = "uzi_pool"
version = "0.1.0"
edition = "2021"
publish = false

[dependencies]
bincode = "=1.3.3"
chrono = "=0.4.45"
colored = "=2.2.0"
env_logger = "=0.9.3"
hex = "=0.4.3"
home = "=0.5.12"
hyper = { version = "=0.14.32", features = ["server", "client", "http1", "tcp", "runtime"] }
log = "=0.4.35"
rand = "=0.8.8"
rust-randomx = "=0.7.6"
serde = { version = "=1.0.229", features = ["derive"] }
serde_json = "=1.0.154"
structopt = "=0.3.26"
thiserror = "=1.0.69"
tokio = { version = "=1.54.1", features = ["full"] }
