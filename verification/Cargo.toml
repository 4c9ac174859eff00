[package]
name = "stencil_matcher"
version = "0.1.0"
edition = "2021"
publish = false

[dependencies]
argh = "0.1"
crc = "3"
object = { version = "0.32", default-features = false, features = ["read", "write", "std"] }
