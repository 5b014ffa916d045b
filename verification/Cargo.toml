[package]
name = "toolbox_menu"
version = "0.1.0"
edition = "2021"
publish = false

[dependencies]
anyhow = "*"
chrono = "*"
clap = "*"
crossterm = "*"
dirs = "*"
fuzzy-matcher = "*"
ratatui = "*"
rusqlite = { version = "*", features = ["bundled"] }
serde = { version = "*", features = ["derive"] }
serde_json = "*"
tokio = { version = "*", features = ["macros", "rt-multi-thread", "process", "fs", "io-util"] }
walkdir = "*"
