[package]
name = "flowmark"
version = "0.1.0"
edition = "2021"
publish = false

[dependencies]
regex = "=1.13.1"
dirs = "=6.0.0"
toml = "=1.1.8"
glob = "=0.3.4"
ignore = "=0.4.34"
comrak = { version = "*", default-features = false }
