[package]
name = "mascopy"
version = "0.1.0"
edition = "2021"
publish = false

[dependencies]
chrono = "0.4"
walkdir = "2"
kamadak-exif = "0.5"
lofty = "*"
filetime = "0.2"
directories = "*"
serde = { version = "1", features = ["derive"] }
serde_json = "1"
