[package]
name = "vnc"
version = "0.2.0"
edition = "2021"
publish = false

[dependencies]
byteorder = "1"
flate2 = "1"
log = "0.4"
