[package]
name = "chess_rs"
version = "0.1.0"
edition = "2021"
publish = false

[dependencies]
macroquad = "0.3"
tokio = { version = "1", features = ["rt", "rt-multi-thread"] }
