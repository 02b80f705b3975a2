[package]
name = "hdu"
version = "0.1.0"
edition = "2021"
publish = false

[dependencies]
clap = { version = "4", features = ["derive"] }
crossterm = "0.28"
dirs = "5"
libc = "0.2"
ratatui = "0.29"
serde = { version = "1", features = ["derive"] }
toml = "0.8"
