[package]
name = "flashboy"
version = "0.1.0"
edition = "2021"
publish = false

[dependencies]
zstd = "0.13"
anyhow = "1"
crossterm = "0.28"
ratatui = "0.29"
tui-textarea = "0.7"
wait-timeout = "0.2"
serde = { version = "1", features = ["derive"] }
postcard = { version = "1", features = ["use-std"] }
