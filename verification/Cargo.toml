[package]
name = "order_book"
version = "0.1.0"
edition = "2021"
publish = false

[dependencies]
stable-vec = "*"
clap = { version = "4", features = ["derive"] }
csv = "1"
serde = { version = "1", features = ["derive"] }
