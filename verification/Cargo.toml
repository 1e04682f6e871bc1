[package]
name = "sim"
version = "0.1.0"
edition = "2021"
publish = false

[dependencies]
rand = "0.8"
rand_chacha = "0.3"
prettytable-rs = { version = "0.10", default-features = false }
config = { version = "0.13", default-features = false, features = ["toml"] }
serde = { version = "1", features = ["derive"] }
