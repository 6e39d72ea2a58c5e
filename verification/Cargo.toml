[package]
name = "rush"
version = "0.1.0"
edition = "2021"
publish = false

[dependencies]
dirs = "5"
nix = "0.26"
regex = "1"
rustyline = "10"
signal-hook = "0.3"
