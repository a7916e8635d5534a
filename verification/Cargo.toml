[package]
name = "image_layer"
version = "0.1.0"
edition = "2021"
publish = false

[dependencies]
bytes = "=1.12.1"
hex = "=0.4.3"
zstd = "=0.11.2"
zstd-safe = "=5.0.2"
