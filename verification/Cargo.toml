[package]
name = "installer"
version = "0.1.0"
edition = "2021"
publish = false

[dependencies]
async-std = "1"
crossterm = "*"
serde = { version = "1", features = ["derive"] }
surf = "2"
