[package]
name = "zrsh"
version = "0.1.0"
edition = "2021"
publish = false

[dependencies]
dirs = "4"
nix = "0.26"
num = "0.4"
rmp-serde = "1"
rustyline = "10"
serde = { version = "1", features = ["derive"] }
serde_json = "1"
serde_yaml = "0.9"
signal-hook = "0.3"
