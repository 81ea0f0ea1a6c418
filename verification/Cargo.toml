[package]
name = "zftop"
version = "0.3.1"
edition = "2021"
publish = false

[dependencies]
anyhow = "1"
crossterm = "0.28"
ratatui = "0.29"
sysctl = "*"
