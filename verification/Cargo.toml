[package]
name = "post_board"
version = "0.1.0"
edition = "2021"
publish = false

[dependencies]
actix-web = { version = "3", default-features = false }
chrono = { version = "0.4", features = ["serde"] }
hex = "0.4"
linked-hash-map = "0.5"
ring = "0.17"
serde = { version = "1", features = ["derive"] }
