[package]
name = "pico_forge"
version = "0.1.0"
edition = "2021"
publish = false

[dependencies]
ctap-hid-fido2 = "*"
hex = "*"
hidapi = "*"
pcsc = "*"
rand = "*"
serde = { version = "*", features = ["derive"] }
serde_cbor_2 = "*"
thiserror = "*"
