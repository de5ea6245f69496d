[package]
name = "inference_type_checker"
version = "0.1.0"
edition = "2021"
publish = false

[dependencies]
anyhow = "1"
rustc-hash = "2"
thiserror = "2"
