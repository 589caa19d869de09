[package]
name = "mt63"
version = "0.1.0"
edition = "2021"
publish = false

[dependencies]
anyhow = "*"
fundsp = "*"
indicatif = "*"
serde = { version = "*", features = ["derive"] }
