[package]
name = "mcpmux"
version = "0.1.0"
edition = "2021"
publish = false

[dependencies]
urlencoding = "=2.1.3"
strsim = "=0.11.1"
serde = { version = "=1.0.229", features = ["derive"] }
serde_json = "=1.0.154"
libc = "=0.2.191"
dirs = "=5.0.1"
uuid = { version = "=1.29.0", features = ["v4"] }
chrono = "=0.4.45"
dashmap = "6"
