[package]
name = "libcnb"
version = "0.1.0"
edition = "2021"
publish = false

[dependencies]
libcnb-common = "=0.18.0"
libcnb-data = "=0.18.0"
serde = { version = "1", features = ["derive"] }
toml = "0.8"
