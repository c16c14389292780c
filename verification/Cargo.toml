[package]
name = "minigraf"
version = "0.1.0"
edition = "2021"
publish = false

[dependencies]
anyhow = "1"
chrono = { version = "0.4", default-features = false, features = ["alloc", "std"] }
lazy_static = "1"
postcard = { version = "1", features = ["alloc"] }
regex-lite = "0.1"
serde = { version = "1", features = ["derive"] }
uuid = "1"
