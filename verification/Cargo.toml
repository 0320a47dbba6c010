[package]
name = "lore_core"
version = "0.1.0"
edition = "2021"
publish = false

[dependencies]
ignore = "=0.4.33"
sha2 = "=0.10.9"
chrono = "=0.4.45"
uuid = { version = "=1.29.0", features = ["v4"] }
serde = { version = "=1.0.229", features = ["derive"] }
serde_json = "=1.0.154"
anyhow = "=1.0.104"
thiserror = "=1.0.69"
log = "=0.4.34"
notify = "=6.1.1"
crossbeam-channel = "=0.5.17"
gray_matter = "0.2"
yaml-rust2 = "*"
