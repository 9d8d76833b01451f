[package]
name = "kvs"
version = "0.1.0"
edition = "2021"
publish = false

[dependencies]
bstr = "0.2"
clap = "2"
serde = { version = "1", features = ["derive"] }
serde_json = "1"
sled = "0.34"
slog = "2"
slog-async = "2"
slog-term = "2"
