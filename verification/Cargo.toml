[package]
name = "noogle"
version = "0.1.0"
edition = "2021"
publish = false

[dependencies]
fuzzy-matcher = "0.3"
serde = { version = "1", features = ["derive"] }
serde_json = "1"
clap = { version = "4", features = ["derive", "env"] }
anyhow = "1"
directories = "5"
ratatui = "0.28"
crossterm = "0.28"

[dev-dependencies]
regex = "1"
