[package]
name = "ohmylogcat"
version = "0.1.0"
edition = "2021"
publish = false

[dependencies]
unicode-width = "0.2"
sys-locale = "0.3"
crossterm = "0.28"
ratatui = "0.29"
arboard = "3"
tokio = { version = "1", features = ["rt-multi-thread", "process", "io-util", "sync", "time", "macros"] }
dirs = "5"
serde = { version = "1", features = ["derive"] }
serde_json = "1"
