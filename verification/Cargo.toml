[package]
name = "slidecli"
version = "0.1.0"
edition = "2021"
publish = false

[dependencies]
anyhow = "1"
base64 = "0.22"
crossterm = "0.27"
fontdue = "0.9"
image = { version = "0.24", default-features = false, features = ["png"] }
ratatui = "0.26"
serde = { version = "1", features = ["derive"] }
serde_json = "1"
