[package]
name = "game_rs"
version = "0.1.0"
edition = "2021"
publish = false

[dependencies]
rand = "0.9"
shell-words = "1"
time = { version = "0.3", features = ["local-offset"] }
toml = "0.9"
