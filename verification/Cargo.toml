[package]
name = "dyndns"
version = "0.1.0"
edition = "2021"
publish = false

[dependencies]
roxmltree = "*"
url = "*"
chrono = "*"
reqwest = { version = "*", default-features = false, features = ["blocking"] }
