[package]
name = "mps_emulator"
version = "0.1.0"
edition = "2021"
publish = false

[dependencies]
sha3 = "0.10"
num-complex = "0.4"
faer = "*"
clap = { version = "4", features = ["derive"] }
rayon = "1"
