[package]
name = "dumbbrain"
version = "0.1.0"
edition = "2021"
publish = false

[dependencies]
dialoguer = "0.10"
inflections = "1"
proc-macro2 = "1"
ptree = { version = "0.4", default-features = false }
quote = "1"
slog = "2"
slog-async = "2"
slog-term = "2"
syn = { version = "1", features = ["full"] }
