[package]
name = "torrent_rs"
version = "0.1.0"
edition = "2021"
publish = false

[dependencies]
base32 = "=0.5.1"
bytes = "=1.12.1"
hex = "=0.4.3"
rand = "=0.10.3"
sha1 = "=0.10.7"
url = "=2.5.8"
anyhow = "=1.0.104"
async-trait = "=0.1.92"
axum = "=0.8.9"
clap = { version = "=4.6.7", features = ["derive"] }
directories = "=6.0.0"
futures = "=0.3.34"
igd-next = { version = "=0.18.0", features = ["aio_tokio"] }
metrics = "0.24"
netdev = "=0.47.0"
reqwest = { version = "=0.12.28", default-features = false, features = ["gzip", "json", "multipart"] }
serde = { version = "=1.0.229", features = ["derive"] }
serde_json = "=1.0.154"
thiserror = "=2.0.21"
tokio = { version = "=1.54.1", features = ["full"] }
tokio-util = { version = "=0.7.20", features = ["codec"] }
tower-http = { version = "=0.6.11", features = ["cors"] }
tracing = "=0.1.44"
tracing-subscriber = { version = "=0.3.23", features = ["env-filter"] }
