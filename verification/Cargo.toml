[package]
name = "bmlite"
version = "0.1.0"
edition = "2021"
publish = false

[dependencies]
crc = "1"
byteorder = { version = "1", default-features = false }
embedded-hal = { version = "0.2", features = ["unproven"] }
nb = "0.1"

[dev-dependencies]
embedded-hal-mock = "0.7"
