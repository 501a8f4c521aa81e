[package]
name = "flatbuf"
version = "0.1.0"
edition = "2021"
publish = false

[dependencies]
flatbuffers = "=23.5.26"
