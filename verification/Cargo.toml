[package]
name = "noontide_emu"
version = "0.1.0"
edition = "2021"
publish = false

[dependencies]
bincode = "1.3"
bus = "2"
clap = { version = "4", features = ["derive"] }
colored = "2"
crossterm = "0.25"
itertools = "0.10"
tui = "0.19"
