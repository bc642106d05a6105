[package]
name = "abixio"
version = "0.1.0"
edition = "2021"
publish = false

[dependencies]
anyhow = "=1.0.104"
async-trait = "=0.1.92"
bincode = "=1.3.3"
clap = { version = "=4.6.7", features = ["derive"] }
form_urlencoded = "=1.2.2"
futures = "=0.3.34"
hex = "=0.4.3"
hmac = "=0.12.1"
hostname = "=0.4.2"
http-body-util = "=0.1.5"
hyper = { version = "=1.12.0", features = ["http1", "server"] }
hyper-util = { version = "=0.1.21", features = ["tokio", "server", "server-graceful"] }
md-5 = "0.10"
openraft = { version = "=0.9.25", features = ["serde", "storage-v2"] }
prometheus = { version = "=0.14.0", default-features = false }
quick-xml = { version = "=0.37.5", features = ["serialize"] }
reed-solomon-erasure = "=6.0.0"
reqwest = { version = "=0.12.28", default-features = false, features = ["json", "rustls-tls"] }
rmp-serde = "=1.3.1"
rustls-pemfile = "=2.2.0"
s3s = "=0.13.0"
serde = { version = "=1.0.229", features = ["derive"] }
serde_json = "=1.0.154"
sha2 = "=0.10.9"
subtle = "=2.6.1"
tokio = { version = "=1.54.1", features = ["full"] }
tokio-rustls = { version = "=0.26.6", default-features = false, features = ["ring", "tls12"] }
tokio-util = "=0.7.20"
uuid = { version = "=1.29.0", features = ["v4"] }
