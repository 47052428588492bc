[package]
name = "tinyproxy"
version = "0.1.0"
edition = "2021"
publish = false

[dependencies]
anyhow = "1"
dotenv = "0.15"
env_logger = "*"
log = "0.4"
subslice = "*"
tokio = { version = "1", features = ["io-util", "macros", "net", "rt-multi-thread"] }
url = "*"
