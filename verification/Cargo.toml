[package]
name = "pdx_mods"
version = "0.1.0"
edition = "2021"
publish = false

[dependencies]
dashmap = "*"
md5 = "*"
serde = { version = "*", features = ["derive"] }
serde_yaml = "*"
