[package]
name = "iggy"
version = "0.1.0"
edition = "2021"
publish = false

[dependencies]
anyhow = "*"
serde = { version = "*", features = ["derive"] }
sled = "*"
thiserror = "*"
