[package]
name = "fimble"
version = "0.1.0"
edition = "2021"
publish = false

[dependencies]
blake3 = "=1.8.7"
clap = "=4.6.7"
hex = "=0.4.3"
jwalk = "=0.9.0"
libflate = "=2.3.2"
memmap = "=0.7.0"
rmp-serde = "=1.3.1"
serde = { version = "=1.0.229", features = ["derive"] }
