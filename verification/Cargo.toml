[package]
name = "kukuryku"
version = "0.1.0"
edition = "2021"
publish = false

[dependencies]
anyhow = "1"
bytemuck = "1"
dirs = "6"
hf-hub = { version = "0.4", default-features = false, features = ["ureq", "rustls-tls"] }
mimalloc = "0.1"
ort = { version = "=2.0.0-rc.10", default-features = false, features = ["std", "load-dynamic"] }
serde_json = "1"
