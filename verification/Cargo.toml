[package]
name = "stage1"
version = "0.1.0"
edition = "2021"
publish = false

[dependencies]
flate2 = "1.0"
glob = "0.3"
hex = "0.4"
sha2 = "0.10"
tar = "0.4"
