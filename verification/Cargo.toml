[package]
name = "qdrop"
version = "0.1.0"
edition = "2021"
publish = false

[dependencies]
sha2 = "0.10"
hmac = "0.12"
getrandom = "0.3"
fastrand = "2"
x509-parser = "0.16"
spake2 = "0.4"
rmp-serde = "1"
serde = { version = "1", features = ["derive"] }
serde_bytes = "0.11"
serde_json = "1"
toml = "0.8"
anyhow = "1"
thiserror = "2"
tokio = { version = "1", features = ["full"] }
rustls = { version = "0.23", default-features = false, features = ["ring", "std", "tls12", "logging"] }
tokio-rustls = { version = "0.26", default-features = false, features = ["ring", "tls12", "logging"] }
rcgen = { version = "0.13", default-features = false, features = ["ring", "pem"] }
mdns-sd = "0.13"
arboard = "3"
image = { version = "0.25", default-features = false, features = ["png", "tiff"] }
mac_address = "1"
clap = { version = "4", features = ["derive"] }
tracing = "0.1"
tracing-subscriber = { version = "0.3", features = ["env-filter"] }

[dev-dependencies]
tempfile = "3"
