[package]
name = "cdc_core"
version = "0.1.0"
edition = "2021"
publish = false

[dependencies]
url = "2"
serde = { version = "1", features = ["derive"] }
serde_json = "1"
regex = "1"
flate2 = "1"
hex = "0.4"
fail = { version = "0.5", features = ["failpoints"] }
hyper = { version = "0.14", features = ["full"] }
tokio = { version = "1", features = ["full"] }
futures = "0.3"
http = "0.2"
mime = "0.3"
openssl = "0.10"
tokio-openssl = "0.6"
async-stream = "0.3"
pin-project = "1"
prometheus = "0.13"
backtrace = "0.3"
lazy_static = "1"
