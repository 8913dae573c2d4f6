[package]
name = "mcu_comms"
version = "0.1.0"
edition = "2021"
publish = false

[dependencies]
hkdf = "0.12"
sha2 = "0.10"
postcard = { version = "1", features = ["alloc"] }
serde = { version = "1", features = ["derive"] }

[dev-dependencies]
aes = "0.8"
