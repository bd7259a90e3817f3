[package]
name = "realmctl"
version = "0.1.0"
edition = "2021"
publish = false

[dependencies]
anyhow = "1"
arboard = { version = "3", default-features = false }
clap = { version = "4", features = ["derive"] }
crc32fast = "1"
regex = "1"
serde = { version = "1", features = ["derive"] }
shellexpand = "3"
toml = "0.8"
