[package]
name = "engine_core"
version = "0.1.0"
edition = "2021"
publish = false

[dependencies]
ahash = "=0.8.12"
byteorder = "=1.5.0"
slotmap = "=1.1.1"
walkdir = "=2.5.0"
thiserror = "=1.0.69"
image = { version = "=0.24.9", default-features = false, features = ["png"] }
rand = "0.8"
