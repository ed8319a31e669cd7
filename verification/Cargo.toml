[package]
name = "legofy"
version = "0.1.0"
edition = "2021"
publish = false

[dependencies]
image = "*"
oxipng = "*"
clap = { version = "*", features = ["derive"] }
loading = "*"
