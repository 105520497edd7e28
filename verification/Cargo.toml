[package]
name = "rainyproxy"
version = "0.1.0"
edition = "2021"
publish = false

[dependencies]
httparse = "=1.10.1"
log = "=0.4.34"
env_logger = "=0.10.2"
chrono = "=0.4.45"
clap = "=2.34.0"
