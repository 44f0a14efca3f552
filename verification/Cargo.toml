[package]
name = "crosscut"
version = "0.1.0"
edition = "2021"
publish = false

[dependencies]
blake3 = { version = "=1.5.5", features = ["traits-preview"] }
petgraph = "*"
udigest = "=0.2.4"
