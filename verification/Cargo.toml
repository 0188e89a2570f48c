[package]
name = "file_backup"
version = "0.1.0"
edition = "2021"
publish = false

[dependencies]
clap = { version = "4", features = ["derive"] }
rusqlite = "*"
serde = { version = "1", features = ["derive"] }
toml = "*"
