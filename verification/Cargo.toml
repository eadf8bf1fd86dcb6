[package]
name = "playmission"
version = "0.1.0"
edition = "2021"
publish = false

[dependencies]
zip = "*"
uuid = { version = "*", features = ["v4"] }
