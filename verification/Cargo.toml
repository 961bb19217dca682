[package]
name = "ue_serial_port"
version = "2.0.0"
edition = "2021"
publish = false

[dependencies]
serde_json = "1"
serialport = { version = "4", default-features = false }
