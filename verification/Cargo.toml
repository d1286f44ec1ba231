[package]
name = "photoviewer"
version = "0.1.0"
edition = "2021"
publish = false

[dependencies]
image = { version = "0.25", default-features = false, features = ["jpeg", "png", "gif", "webp"] }
fast_image_resize = "6"
kamadak-exif = "0.6"
serde = { version = "1", features = ["derive"] }
toml = "*"
slint = { version = "=1.16.1", default-features = false, features = ["std", "compat-1-2"] }
