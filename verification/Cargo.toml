[package]
name = "picodox"
version = "0.1.0"
edition = "2021"
publish = false

[dependencies]
anyhow = "=1.0.104"
circular-buffer = "=1.2.1"
clap = { version = "=4.6.7", features = ["derive"] }
cobs = "=0.5.1"
crc = "=3.4.0"
heapless = "=0.8.0"
serialport = { version = "=4.10.1", default-features = false }
usb_enumeration = "=0.2.1"

[dev-dependencies]
postcard = { version = "=1.1.3", features = ["use-std"] }
