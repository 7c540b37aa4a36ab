[package]
name = "swab"
version = "0.1.0"
edition = "2021"
publish = false

[dependencies]
anyhow = "1"
clap = { version = "4", features = ["derive"] }
confy = "*"
dialoguer = "*"
globset = "0.4"
serde = { version = "1", features = ["derive"] }
walkdir = "2"
