[package]
name = "cubestore"
version = "0.1.0"
edition = "2021"
publish = false

[dependencies]
async-trait = "0.1"
futures = "0.3"
log = "0.4"
tempfile = "3"
tokio = { version = "1", features = ["fs", "io-util", "rt", "sync"] }
