[package]
name = "plum"
version = "0.1.0"
edition = "2021"
publish = false

[dependencies]
ariadne = "*"
serde = { version = "*", features = ["derive"] }
