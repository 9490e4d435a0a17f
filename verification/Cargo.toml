[package]
name = "decds"
version = "0.1.0"
edition = "2021"
publish = false

[dependencies]
blake3 = "=1.8.7"
rlnc = "=0.8.7"
rand = "=0.9.2"
clap = { version = "=4.6.7", features = ["derive"] }
const-hex = "=1.19.3"

[dev-dependencies]
bincode = { version = "=2.0.1", features = ["serde"] }
