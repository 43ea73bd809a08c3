[package]
name = "halld"
version = "0.1.0"
edition = "2021"
publish = false

[dependencies]
anyhow = "1"
indoc = "2"
object = { version = "=0.36.7", default-features = false, features = ["read", "write"] }
pico-args = "0.5"
serde = { version = "1", features = ["derive"] }
serde_json = { version = "1", features = ["preserve_order"] }
vpk0 = "=0.8.2"
