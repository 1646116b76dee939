[package]
name = "upt"
version = "0.1.0"
edition = "2021"
publish = false

[dependencies]
chrono = "*"
chrono-humanize = "*"
uptime_lib = "*"
clap = { version = "*", features = ["derive"] }
clap_complete = "*"
crossterm = "*"
ctrlc = "*"
home = "*"
