[package]
name = "slsk_protocol"
version = "0.1.0"
edition = "2021"
publish = false

[dependencies]
flate2 = "1"
md5 = "0.7"
thiserror = "2"
anyhow = "1"
tokio = { version = "1", features = ["full"] }
crossterm = "0.28"
ratatui = "0.29"
dirs = "6"
