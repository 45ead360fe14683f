[package]
name = "game_protocol"
version = "0.1.0"
edition = "2021"
publish = false

[dependencies]
crc32fast = "*"
uuid = { version = "*", features = ["v4"] }
