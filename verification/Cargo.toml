[package]
name = "truce"
version = "0.1.0"
edition = "2021"
publish = false

[dependencies]
base64 = "0.22"
crossbeam-queue = "0.3"
toml = "0.8"
serde = { version = "1", features = ["derive"] }
png = "0.17"
backtrace = "0.3"
log = "0.4"
clap-sys = "*"
