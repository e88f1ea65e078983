[package]
name = "askar_store"
version = "0.1.0"
edition = "2021"
publish = false

[dependencies]
indy-utils = { version = "=0.3.9", default-features = false, features = ["ed25519", "pack"] }
ursa = { version = "=0.3.5", default-features = false }
zeroize = "1"
serde = { version = "1", features = ["derive"] }
serde_json = "1"
once_cell = "1"
async-mutex = "1"
ffi-support = "0.4"
