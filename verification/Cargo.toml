[package]
name = "melda_tools"
version = "0.1.0"
edition = "2021"
publish = false

[dependencies]
melda = "=0.4.4"
serde_json = "=1.0.151"
clap = { version = "=4.6.7", features = ["derive"] }
