[package]
name = "fswww"
version = "0.1.0"
edition = "2021"
publish = false

[dependencies]
nix = { version = "*", features = ["poll", "signal", "fs", "process", "event"] }
