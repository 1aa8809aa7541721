[package]
name = "click"
version = "0.1.0"
edition = "2021"
publish = false

[dependencies]
chrono = { version = "0.4", default-features = false, features = ["alloc"] }
uuid = "1"
nix = { version = "0.30", features = ["fs"] }
os_pipe = "1"
encoding_rs = "0.8"
