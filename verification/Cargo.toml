[package]
name = "palette_generator"
version = "0.1.0"
edition = "2021"
publish = false

[dependencies]
colorous = "=1.0.16"
image = { version = "=0.25.10", default-features = false, features = ["png"] }
rand = "=0.8.8"
cgmath = "=0.18.0"
hex_color = { version = "=3.0.0", features = ["serde"] }
csv = "=1.4.0"
serde = { version = "=1.0.229", features = ["derive"] }
serde_qs = { version = "=1.1.3", features = ["actix4"] }
actix-web = "=4.18.1"
actix-files = "=0.6.10"
