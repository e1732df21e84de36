[package]
name = "device_faker"
version = "0.1.0"
edition = "2021"
publish = false

[dependencies]
android_logger = "*"
anyhow = "*"
jni = "*"
libc = "*"
log = "*"
serde = { version = "*", features = ["derive"] }
serde_json = "*"
toml = "*"
