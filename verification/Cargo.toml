[package]
name = "gpscan"
version = "0.1.0"
edition = "2021"
publish = false

[dependencies]
chrono = "0.4"
clap = { version = "4", features = ["cargo"] }
env_logger = "0.11"
flate2 = "1"
log = "0.4"
quick-xml = "*"
sysinfo = "*"
