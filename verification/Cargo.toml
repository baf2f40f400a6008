[package]
name = "slipbridge"
version = "0.1.0"
edition = "2021"
publish = false

[dependencies]
clap = { version = "4", features = ["derive"] }
image = { version = "0.25", default-features = false, features = ["png", "jpeg", "gif", "webp"] }
mdns-sd = "*"
rusb = "*"
serde = { version = "1", features = ["derive"] }
serde_json = "1"
thiserror = "2"
