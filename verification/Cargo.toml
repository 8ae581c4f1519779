[package]
name = "filecabinet"
version = "0.1.0"
edition = "2021"
publish = false

[dependencies]
cocoon = "*"
ring = "*"
data-encoding = "*"
atomicwrites = "*"
