[package]
name = "wrm"
version = "0.1.0"
edition = "2021"
publish = false

[dependencies]
chrono = "*"
clap = { version = "*", features = ["derive"] }
colored = "*"
filey = "*"
inquire = "*"
walkdir = "*"

[dev-dependencies]
serde_json = "*"
