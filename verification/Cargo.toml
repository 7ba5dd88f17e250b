[package]
name = "lumolog"
version = "0.1.0"
edition = "2021"
publish = false

[dependencies]
anyhow = "1"
arboard = { version = "3", default-features = false }
chrono = "0.4"
clap = { version = "4", features = ["derive"] }
crossterm = "0.28"
libc = "0.2"
memmap2 = "0.9"
nucleo-matcher = "0.3"
open = "5"
ratatui = "0.29"
regex = "1"
serde_json = "1"
