[package]
name = "tmus"
version = "0.1.0"
edition = "2021"
publish = false

[dependencies]
serde_json = "1"
cpal = "0.15"
crossterm = "0.28"
ratatui = "0.29"
windows-sys = { version = "0.59", features = ["Win32_System_Console"] }
