[package]
name = "miniexec"
version = "0.1.0"
edition = "2021"
publish = false

[dependencies]
rustix = { version = "0.38", features = ["event", "net", "time"] }
futures = "0.3"
log = "0.4"
env_logger = "*"
