[package]
name = "snake"
version = "0.1.0"
edition = "2021"
publish = false

[dependencies]
rand = "*"
serde = { version = "*", features = ["derive"] }
rustbreak = { version = "*", features = ["yaml_enc"] }
shellexpand = "*"
termion = "*"
