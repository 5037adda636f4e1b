[package]
name = "emit"
version = "0.1.0"
edition = "2021"
publish = false

[dependencies]
rand = "=0.10.3"
serde = "=1.0.229"
serde_json = "=1.0.154"
chrono = "=0.4.45"
log = "0.4"
