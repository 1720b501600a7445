[package]
name = "folder_stats"
version = "0.1.0"
edition = "2021"
publish = false

[dependencies]
crossterm = "*"
notify = "*"
ratatui = "*"
tokio = { version = "*", features = ["rt-multi-thread", "macros", "sync", "time"] }
