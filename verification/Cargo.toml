[package]
name = "kmrebind"
version = "0.1.0"
edition = "2021"
publish = false

[dependencies]
evdev = "0.13"
clap = { version = "4", features = ["derive"] }
log = "0.4"
env_logger = "0.11"
signal-hook = "0.3"
