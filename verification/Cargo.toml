[package]
name = "battleship"
version = "0.1.0"
edition = "2021"
publish = false

[dependencies]
rand = "*"
serde = { version = "*", features = ["derive"] }
eframe = { version = "*", default-features = false, features = ["glow", "x11"] }
