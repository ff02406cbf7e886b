[package]
name = "cbs_aes"
version = "0.1.0"
edition = "2021"
publish = false

[dependencies]
tfhe = { version = "0.4", features = ["x86_64-unix"] }
