[package]
name = "chain_dkim"
version = "0.1.0"
edition = "2021"
publish = false

[dependencies]
base64 = "=0.22.1"
mailparse = "=0.18.0"
regex = "=1.13.1"
rsa = "=0.9.10"
sha2 = { version = "=0.10.9", features = ["oid"] }
trust-dns-resolver = { version = "=0.23.2", features = ["tokio-runtime", "system-config"] }
tokio = { version = "=1.54.1", features = ["rt-multi-thread", "macros"] }
thiserror = "=1.0.69"

[dev-dependencies]
rand = "=0.8.8"
