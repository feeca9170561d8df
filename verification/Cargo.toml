[package]
name = "hashdeep-rs"
version = "0.1.0"
edition = "2021"
publish = false

[dependencies]
blake3 = { version = "1", features = ["pure"] }
clap = { version = "4", features = ["derive"] }
colored = "2"
digest = "0.10"
filebuffer = "*"
jwalk = "0.8"
sha2 = "0.10"
sha3 = "0.10"
walkdir = "2"
