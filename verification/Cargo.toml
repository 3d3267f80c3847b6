[package]
name = "clashtui"
version = "0.1.0"
edition = "2021"
publish = false

[dependencies]
indexmap = "*"
serde = { version = "*", features = ["derive"] }
serde_yml = "*"
serde_json = "*"
anyhow = "*"
log = "*"
crossterm = { version = "*", features = ["event-stream"] }
ratatui = "*"
tokio = { version = "*", features = ["rt-multi-thread", "macros", "sync", "time"] }
futures-lite = "*"
unicode-width = "*"
strum = { version = "*", features = ["derive"] }
