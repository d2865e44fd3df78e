[package]
name = "electricui-embedded"
version = "0.1.0"
edition = "2021"
publish = false

[dependencies]
byteorder = { version = "1", default-features = false }
corncobs = "0.1"
crc = "2"
