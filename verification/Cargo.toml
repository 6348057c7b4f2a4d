[package]
name = "quic_frames"
version = "0.1.0"
edition = "2021"
publish = false

[dependencies]
octets = "*"
