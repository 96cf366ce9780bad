[package]
name = "tasktrack"
version = "0.1.0"
edition = "2021"
publish = false

[dependencies]
rand = "*"
chrono = "*"
unicode-width = "*"
terminal_size = "*"
colored = "*"
serde = { version = "*", features = ["derive"] }
serde_json = "*"
serde_yaml = "*"
