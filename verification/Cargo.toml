[package]
name = "jb-vmoptions-helper"
version = "0.1.0"
edition = "2021"
publish = false

[dependencies]
anyhow = "1"
crossterm = "*"
ratatui = "*"
regex = "1"
