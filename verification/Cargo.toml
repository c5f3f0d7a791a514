[package]
name = "ubx_capture"
version = "0.1.0"
edition = "2021"
publish = false

[dependencies]
flate2 = "1"
ublox = "*"
serialport = { version = "4", default-features = false }
clap = "4"
