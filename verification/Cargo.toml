[package]
name = "fontheight"
version = "0.1.0"
edition = "2021"
publish = false

[dependencies]
itertools = "=0.14.0"
skrifa = "0.37"
harfrust = "=0.3.2"
kurbo = "=0.13.1"
toml = "=1.1.8"
serde = { version = "=1.0.229", features = ["derive"] }
brotli-decompressor = "=6.1.1"
indexmap = "=2.14.2"
