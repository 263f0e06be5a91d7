[package]
name = "ferropipe_rdp"
version = "0.1.0"
edition = "2021"
publish = false

[dependencies]
hmac = "0.12"
md4 = "0.10"
md-5 = "0.10"
rc4 = "0.1"
sha2 = "0.10"
rand = "0.8"
rustls = { version = "0.23", default-features = false, features = ["ring", "std"] }
thiserror = "1"

[dev-dependencies]
bytes = "1"
