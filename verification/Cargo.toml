[package]
name = "serial_monitor"
version = "0.1.0"
edition = "2021"
publish = false

[dependencies]
csv = "1"
regex = "1"
log = "0.4"
crossbeam-channel = "0.5"
serde = { version = "1", features = ["derive"] }
serialport = { version = "4", default-features = false }
preferences = "*"
keepawake = "*"
gumdrop = "*"
