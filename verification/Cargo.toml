[package]
name = "wattopus"
version = "0.1.0"
edition = "2021"
publish = false

[dependencies]
sha2 = "0.10"
serde = { version = "1", features = ["derive"] }
serde_json = "1"
tiny_http = "0.12"
ureq = { version = "2", features = ["json"] }
rustls-pemfile = "2"
env_logger = "0.11"
log = "0.4"
