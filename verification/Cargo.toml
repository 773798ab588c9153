[package]
name = "lzsync"
version = "0.4.0"
edition = "2021"
publish = false

[dependencies]
anyhow = "1"
arboard = { version = "3", default-features = false }
crossterm = { version = "0.28", features = ["event-stream"] }
dirs = "5"
futures = "0.3"
libc = "0.2"
percent-encoding = "2"
ratatui = "0.29"
regex = "1"
serde = { version = "1", features = ["derive"] }
serde_json = "1"
shellexpand = "3"
shlex = "1"
tokio = { version = "1", features = ["full"] }
toml = "0.8"
unicode-width = "0.2"
ureq = "2"
