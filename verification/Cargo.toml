[package]
name = "sgc_demos"
version = "0.1.0"
edition = "2021"
publish = false

[dependencies]
base64 = "=0.22.1"
anyhow = "1"
log = "0.4"
env_logger = { version = "0.11", default-features = false }
serde = { version = "1", features = ["derive"] }
serde_json = "1"
toml = "0.8"
ureq = { version = "=2.12.1", default-features = false }
evdev = "=0.13.2"
libsgc-rs = "=0.2.0"
