[package]
name = "switch_usb_host"
version = "0.1.0"
edition = "2021"
publish = false

[dependencies]
smol = "=2.0.2"
nusb = { version = "=0.2.7", features = ["smol"] }
ctrlc = "=3.5.2"
futures-io = "=0.3.34"
