[package]
name = "forklift"
version = "0.1.0"
edition = "2021"
publish = false

[dependencies]
anyhow = "=1.0.104"
async-trait = "=0.1.92"
aws-sdk-s3 = { version = "=1.157.0", default-features = false, features = ["rt-tokio"] }
aws-smithy-runtime-api = "=1.19.2"
axum = { version = "=0.8.9", features = ["multipart"] }
base64 = "=0.22.1"
bytes = "=1.12.1"
chrono = { version = "=0.4.45", default-features = false, features = ["clock", "std"] }
form_urlencoded = "=1.2.2"
futures-util = "=0.3.34"
hex = "=0.4.3"
http = "=1.5.0"
httpdate = "=1.0.3"
humantime = "=2.4.0"
parking_lot = "=0.12.5"
percent-encoding = "=2.3.2"
prometheus = { version = "=0.13.4", default-features = false }
reqwest = { version = "=0.12.28", default-features = false, features = ["json", "stream"] }
semver = "=1.0.28"
serde = { version = "=1.0.229", features = ["derive"] }
serde_json = { version = "=1.0.154", features = ["preserve_order", "raw_value"] }
sha1 = "=0.10.7"
sha2 = "=0.10.9"
subtle = "=2.6.1"
thiserror = "=2.0.21"
tokio = { version = "=1.54.1", features = ["full"] }
tokio-util = { version = "=0.7.20", features = ["io", "io-util"] }
tracing = "=0.1.44"
url = "=2.5.8"
