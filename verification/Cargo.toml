[package]
name = "blockio"
version = "0.1.0"
edition = "2021"
publish = false

[dependencies]
linux-raw-sys = "*"
packed_struct = "*"
rustix = { version = "*", features = ["fs"] }
