[package]
name = "quiche"
version = "0.1.0"
edition = "2021"
publish = false

[dependencies]
octets = { version = "=0.3.7", features = ["huffman_hpack"] }
