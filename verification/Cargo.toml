[package]
name = "kaval"
version = "0.1.0"
edition = "2021"
publish = false

[dependencies]
anyhow = "*"
clap = { version = "*", features = ["derive"] }
crossterm = "*"
netstat2 = "*"
ratatui = "*"
sysinfo = "*"
