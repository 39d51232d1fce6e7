[package]
name = "rodecaster_vad"
version = "0.1.0"
edition = "2021"
publish = false

[dependencies]
alsa = "0.9"
anyhow = "1"
env_logger = "0.11"
log = "0.4"
nix = { version = "0.29", features = ["fs", "mman", "signal", "process"] }
rusb = "0.9"
serde = { version = "1", features = ["derive"] }
toml = "0.8"
