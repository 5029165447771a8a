[package]
name = "snapkeep"
version = "0.1.0"
edition = "2021"
publish = false

[dependencies]
chrono = "*"
clap = { version = "*", features = ["derive"] }
clap_complete = "*"
colog = "*"
humantime = "*"
log = "*"
thiserror = "*"
