[package]
name = "dasd_install"
version = "0.1.0"
edition = "2021"
publish = false

[dependencies]
gptman = "*"
nix = { version = "*", features = ["ioctl"] }
