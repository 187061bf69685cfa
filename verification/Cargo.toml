[package]
name = "adibi"
version = "0.1.0"
edition = "2021"
publish = false

[dependencies]
clap = { version = "4", features = ["derive"] }
dmidecode = "*"
env_logger = "0.11"
io-uring = "0.7"
log = "0.4"
rustix = { version = "1", features = ["net", "process", "pty"] }
thiserror = "2"

[dev-dependencies]
winnow = "0.7"
