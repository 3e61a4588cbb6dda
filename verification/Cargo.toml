[package]
name = "popo_cli"
version = "0.1.0"
edition = "2021"
publish = false

[dependencies]
scraper = "*"
chrono = { version = "*", features = ["serde"] }
reqwest = { version = "*", features = ["blocking"] }
clap = { version = "*", features = ["derive"] }
serde = { version = "*", features = ["derive"] }
serde_json = "*"
thiserror = "*"
