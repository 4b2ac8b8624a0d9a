[package]
name = "litetx"
version = "0.1.0"
edition = "2021"
publish = false

[dependencies]
crc = "*"
lz4_flex = "*"
serde = { version = "*", features = ["derive"] }
thiserror = "*"
