[package]
name = "bfc"
version = "0.1.0"
edition = "2021"
publish = false

[dependencies]
inkwell = { version = "=0.10.0", features = ["llvm14-0-force-dynamic"] }
