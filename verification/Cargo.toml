[package]
name = "tentacle"
version = "0.1.0"
edition = "2021"
publish = false

[dependencies]
anyhow = "=1.0.104"
crc = "=3.4.0"
libc = "=0.2.191"
prost = "=0.14.4"
rustls = { version = "=0.23.46", default-features = false, features = ["ring", "std", "tls12", "logging"] }
rustls-native-certs = "=0.8.5"
rustls-pemfile = "=2.2.0"
rustls-pki-types = "=1.15.1"
serde = { version = "=1.0.229", features = ["derive"] }
serde_yaml = "=0.9.34"
tokio = { version = "=1.54.1", features = ["full"] }
tokio-rustls = { version = "=0.26.6", default-features = false, features = ["ring", "tls12", "logging"] }
tracing = "=0.1.44"
tracing-subscriber = "=0.3.23"
