[package]
name = "trino_arrow"
version = "0.1.0"
edition = "2021"
publish = false

[dependencies]
arrow = { version = "=55.2.0", default-features = false }
arrow-schema = { version = "=55.2.0", default-features = false }
async-stream = "=0.3.6"
async-trait = "=0.1.92"
base64 = "=0.22.1"
bigdecimal = "=0.4.11"
chrono = "=0.4.45"
datafusion = { version = "=49.0.2", default-features = false }
futures = "=0.3.34"
num-bigint = "=0.4.8"
reqwest = { version = "=0.12.28", default-features = false, features = ["json", "rustls-tls"] }
secrecy = "=0.10.3"
serde_json = "=1.0.154"
snafu = "=0.8.9"
tokio = { version = "=1.54.1", features = ["rt", "time", "macros"] }
