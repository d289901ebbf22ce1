[package]
name = "simulatron"
version = "0.1.0"
edition = "2021"
publish = false

[dependencies]
itertools = "*"
log = "0.4"
clap = { version = "4", features = ["cargo"] }
colored = "2"
env_logger = "0.10"
crossterm = "0.26"
notify = "5"
simplelog = "0.12"
time = { version = "0.3", features = ["macros", "formatting"] }
