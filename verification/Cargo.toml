[package]
name = "later"
version = "0.1.0"
edition = "2021"

[dependencies]
ansi_term = "0.12"
anyhow = "1"
chrono = "0.4"
clap = "*"
dirs = "*"
rustyline = "*"
serde = { version = "1", features = ["derive"] }
serde_json = "1"
