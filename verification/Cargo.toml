[package]
name = "gha_runner"
version = "0.1.0"
edition = "2021"
publish = false

[dependencies]
backtrace = "=0.3.77"
clap = { version = "=4.6.7", features = ["derive"] }
env_logger = "=0.11.11"
futures = "=0.3.34"
hex = "=0.4.3"
http-body-util = "=0.1.5"
linked-hash-map = "=0.5.6"
log = "=0.4.35"
octocrab = "=0.40.0"
reqwest = { version = "=0.12.28", default-features = false, features = ["stream"] }
serde_yaml = "=0.9.34"
tempfile = "=3.27.0"
tokio = { version = "=1.54.1", features = ["io-util", "macros", "process", "rt"] }
