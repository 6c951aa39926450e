[package]
name = "libcosyc"
version = "0.1.0"
edition = "2021"
publish = false

[dependencies]
bincode = "2"
clap = { version = "4", features = ["derive"] }
path-clean = "1"
pathdiff = "0.2"
