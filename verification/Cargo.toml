[package]
name = "sysman"
version = "0.1.0"
edition = "2021"
publish = false

[dependencies]
anyhow = "1"
async-trait = "0.1"
clap = { version = "4", features = ["derive"] }
crossterm = "*"
ratatui = "*"
regex = "1"
serde = { version = "1", features = ["derive"] }
sysinfo = "*"
thiserror = "*"
tokio = { version = "1", features = ["rt-multi-thread", "sync", "macros"] }
toml = "*"
