[package]
name = "rsh"
version = "0.1.0"
edition = "2021"
publish = false

[dependencies]
nix = { version = "0.30", features = ["signal", "process", "term", "fs", "poll", "event", "ioctl"] }
