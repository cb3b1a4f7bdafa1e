[package]
name = "zisk_precompiles"
version = "0.1.0"
edition = "2021"
publish = false

[dependencies]
anyhow = "1"
rayon = "1"
tracing = "0.1"
tokio = { version = "1", default-features = false, features = ["rt"] }
