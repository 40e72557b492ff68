[package]
name = "lri-rs"
version = "0.1.0"
edition = "2021"
publish = false

[dependencies]
png = "=0.17.16"
image = { version = "=0.25.10", default-features = false, features = ["png", "jpeg"] }
nalgebra = "=0.33.3"
base64 = "=0.22.1"
anyhow = "=1.0.104"
camino = "=1.2.6"
serde = { version = "=1.0.229", features = ["derive"] }
serde_json = "=1.0.154"
owo-colors = "4"
