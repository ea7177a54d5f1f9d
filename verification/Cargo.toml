[package]
name = "gzcodec"
version = "0.1.0"
edition = "2021"
publish = false

[dependencies]
crc32fast = "1"
miniz_oxide = "0.8"
futures = "0.1"
tokio-io = "0.1"
