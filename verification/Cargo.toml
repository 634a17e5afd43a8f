[package]
name = "gesist"
version = "0.1.0"
edition = "2021"
publish = false

[dependencies]
base64 = "0.22"
crc = "3"
clap = { version = "4", features = ["derive"] }
leb128 = "0.2"
