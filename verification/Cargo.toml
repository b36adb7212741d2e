[package]
name = "placeholder"
version = "0.1.0"
edition = "2021"
publish = false

[dependencies]
image = { version = "0.25", default-features = false, features = ["png"] }
rocket = "0.5"
rusttype = "0.9"
slog = "2"
slog-term = "2"
