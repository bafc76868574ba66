[package]
name = "loopback_oauth"
version = "0.1.0"
edition = "2021"
publish = false

[dependencies]
tiny_http = "*"
reqwest = { version = "*", default-features = false, features = ["blocking"] }
dotenvy = "*"
