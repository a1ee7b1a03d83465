[package]
name = "task_bot"
version = "0.1.0"
edition = "2021"
publish = false

[dependencies]
dashmap = "*"
serde = { version = "*", features = ["derive"] }
serde_yaml = "*"
serde_json = "*"
scraper = "*"
toml = "*"
walkdir = "*"
chrono = "*"
dotenv = "*"
once_cell = "*"
reqwest = { version = "*", default-features = false, features = ["blocking"] }
