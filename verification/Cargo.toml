[package]
name = "hls"
version = "0.1.0"
edition = "2021"
publish = false

[dependencies]
url = "*"
chrono = "*"
clap = { version = "*", features = ["derive"] }
crossbeam-deque = "*"
env_logger = "*"
log = "*"
reqwest = { version = "*", default-features = false }
tokio = { version = "*", features = ["rt", "time", "macros"] }
