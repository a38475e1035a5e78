[package]
name = "jietu_viewer"
version = "0.1.0"
edition = "2021"
publish = false

[dependencies]
kamadak-exif = "*"
image = { version = "0.25", default-features = false, features = ["png", "jpeg", "tiff", "ico", "webp"] }
psd = "*"
serde = { version = "1", features = ["derive"] }
serde_json = "1"
dirs = "*"
log = "0.4"
