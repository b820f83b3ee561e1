[package]
name = "workmux"
version = "0.1.0"
edition = "2021"
publish = false

[dependencies]
anyhow = "1"
console = "*"
home = "*"
ignore = "0.4"
libc = "0.2"
notify = "9.0.0-rc.1"
serde = { version = "1", features = ["derive"] }
serde_json = "1"
signal-hook = "0.3"
tempfile = "3"
tracing = "0.1"
