[package]
name = "redstone_java"
version = "0.1.0"
edition = "2021"
publish = false

[dependencies]
rustc-hash = "*"
smallvec = "*"
serde = { version = "1", features = ["derive"] }
serde_json = "1"
thiserror = "*"
