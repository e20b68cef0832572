[package]
name = "kernel-core"
version = "0.1.0"
edition = "2021"
publish = false

[dependencies]
sha2 = { version = "=0.10.9", default-features = false }
hmac = "=0.12.1"
hkdf = "=0.12.4"
blake2 = { version = "=0.10.6", default-features = false }
chacha20poly1305 = { version = "=0.10.1", default-features = false }
x25519-dalek = { version = "=2.0.1", default-features = false }
p256 = { version = "0.13", default-features = false, features = ["ecdsa"] }
