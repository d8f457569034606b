[package]
name = "javs"
version = "0.1.0"
edition = "2021"
publish = false

[dependencies]
aes = "0.8"
aes-gcm = "0.10"
anyhow = "1"
clap = { version = "4", features = ["derive"] }
ctr = "0.9"
dashmap = "6"
hex = "0.4"
hmac = "0.12"
md-5 = "0.10"
parking_lot = "0.12"
rand = "0.8"
rustls = { version = "0.23", default-features = false, features = ["ring", "std", "tls12", "logging"] }
rustls-pemfile = "2"
serde = { version = "1", features = ["derive"] }
sha1 = "0.10"
sha2 = "0.10"
tokio = { version = "1", features = ["full"] }
toml = "0.8"
tracing = "0.1"
tracing-subscriber = { version = "0.3", features = ["env-filter"] }
tun = { version = "0.7", features = ["async"] }
x509-parser = "0.16"
