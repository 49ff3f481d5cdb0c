[package]
name = "mosa"
version = "0.1.0"
edition = "2021"
publish = false

[dependencies]
indexmap = "2"
regex = "1"
anyhow = "1"
colored = "2"
log = "0.4"
lazy_static = "1"
uuid = { version = "1", features = ["v4"] }
jni = "0.21"
