[package]
name = "yak"
version = "0.1.0"
edition = "2021"
publish = false

[dependencies]
url = "*"
rusqlite = { version = "*", features = ["bundled"] }
r2d2 = "*"
r2d2_sqlite = "*"
