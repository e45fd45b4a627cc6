[package]
name = "room_pagination"
version = "0.1.0"
edition = "2021"
publish = false

[dependencies]
eyeball = "*"
tokio = { version = "*", default-features = false, features = ["rt", "sync", "time"] }
